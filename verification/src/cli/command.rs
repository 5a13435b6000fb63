//! The commands that a user can give.

use vstd::prelude::*;

use crate::cli::text::{lemma_words_not_empty, same_text, split, words};
use crate::proto::addr::texts_of;

verus! {

/// A command.
#[derive(Debug, Clone)]
pub enum Command {
    /// Retrieve the blob with this key.
    Get { key: String },
    /// Store a file, and insert it into the network unless it is to stay local.
    Put { file_path: String, local: bool },
    /// Make the node with this ticket a peer.
    Peer { peer_id: String },
    /// List the blobs that are stored.
    List,
    /// List the tags of the store.
    Tags,
}

/// Why a line is no command.
#[derive(Debug, Clone)]
pub enum CommandError {
    /// There is no key behind `get`.
    NoKey,
    /// There is no file behind `put`.
    NoFile,
    /// There is no peer behind `peer`.
    NoPeer,
    /// There is no command of this name.
    Invalid(String),
}

/// What a [`Command`] holds.
#[verifier::ext_equal]
pub enum CommandView {
    Get { key: Seq<char> },
    Put { file_path: Seq<char>, local: bool },
    Peer { peer_id: Seq<char> },
    List,
    Tags,
}

/// What a [`CommandError`] holds.
#[verifier::ext_equal]
pub enum CommandErrorView {
    NoKey,
    NoFile,
    NoPeer,
    Invalid(Seq<char>),
}

impl View for Command {
    type V = CommandView;

    open spec fn view(&self) -> CommandView {
        match *self {
            Command::Get { key } => CommandView::Get { key: key@ },
            Command::Put { file_path, local } => CommandView::Put { file_path: file_path@, local },
            Command::Peer { peer_id } => CommandView::Peer { peer_id: peer_id@ },
            Command::List => CommandView::List,
            Command::Tags => CommandView::Tags,
        }
    }
}

impl View for CommandError {
    type V = CommandErrorView;

    open spec fn view(&self) -> CommandErrorView {
        match *self {
            CommandError::NoKey => CommandErrorView::NoKey,
            CommandError::NoFile => CommandErrorView::NoFile,
            CommandError::NoPeer => CommandErrorView::NoPeer,
            CommandError::Invalid(name) => CommandErrorView::Invalid(name@),
        }
    }
}

/// The command that some words are: the first is its name, and the next ones are its arguments.
/// Words behind these do not matter.
pub open spec fn command(words: Seq<Seq<char>>) -> Result<CommandView, CommandErrorView> {
    let name = words[0];
    if name == "get"@ {
        if words.len() > 1 {
            Ok(CommandView::Get { key: words[1] })
        } else {
            Err(CommandErrorView::NoKey)
        }
    } else if name == "put"@ {
        if words.len() > 1 {
            Ok(
                CommandView::Put {
                    file_path: words[1],
                    local: words.len() > 2 && words[2] == "local"@,
                },
            )
        } else {
            Err(CommandErrorView::NoFile)
        }
    } else if name == "peer"@ {
        if words.len() > 1 {
            Ok(CommandView::Peer { peer_id: words[1] })
        } else {
            Err(CommandErrorView::NoPeer)
        }
    } else if name == "list"@ {
        Ok(CommandView::List)
    } else if name == "tags"@ {
        Ok(CommandView::Tags)
    } else {
        Err(CommandErrorView::Invalid(name))
    }
}

/// What the user is told.
pub open spec fn error_text(err: CommandErrorView) -> Seq<char> {
    match err {
        CommandErrorView::NoKey => "please specify a key to retrieve"@,
        CommandErrorView::NoFile => "please specify a file to insert"@,
        CommandErrorView::NoPeer => "please specify a peer ID"@,
        CommandErrorView::Invalid(name) => "`"@ + name + "` is not a valid command (yet)"@,
    }
}

impl CommandError {
    /// What the user is told.
    pub fn message(&self) -> (text: String)
        ensures
            text@ == error_text(self@),
    {
        match self {
            CommandError::NoKey => "please specify a key to retrieve".to_owned(),
            CommandError::NoFile => "please specify a file to insert".to_owned(),
            CommandError::NoPeer => "please specify a peer ID".to_owned(),
            CommandError::Invalid(name) => {
                let mut text = "`".to_owned();
                text.append(name.as_str());
                text.append("` is not a valid command (yet)");
                text
            },
        }
    }
}

/// Reads the command on a line.
pub fn parse_command(line: &str) -> (r: Result<Command, CommandError>)
    ensures
        match command(words(line@)) {
            Ok(cmd) => r matches Ok(c) && c@ == cmd,
            Err(err) => r matches Err(e) && e@ == err,
        },
{
    let words = split(line);
    let ghost texts = texts_of(words@);
    proof {
        lemma_words_not_empty(line@);
        assert(texts.len() == words@.len());
        assert(forall|i: int| 0 <= i < words@.len() ==> texts[i] == (#[trigger] words@[i])@);
    }
    let name = words[0].as_str();
    if same_text(name, "get") {
        if words.len() > 1 {
            Ok(Command::Get { key: words[1].clone() })
        } else {
            Err(CommandError::NoKey)
        }
    } else if same_text(name, "put") {
        if words.len() > 1 {
            let local = words.len() > 2 && same_text(words[2].as_str(), "local");
            Ok(Command::Put { file_path: words[1].clone(), local })
        } else {
            Err(CommandError::NoFile)
        }
    } else if same_text(name, "peer") {
        if words.len() > 1 {
            Ok(Command::Peer { peer_id: words[1].clone() })
        } else {
            Err(CommandError::NoPeer)
        }
    } else if same_text(name, "list") {
        Ok(Command::List)
    } else if same_text(name, "tags") {
        Ok(Command::Tags)
    } else {
        Err(CommandError::Invalid(words[0].clone()))
    }
}

} // verus!
