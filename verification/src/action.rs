//! Commands of the text protocol.
//!
//! One line of input is one command. Its first word names the operation:
//! `READ` asks for one frame from the device, `WRITE` sends the words that
//! follow it. Both are case-sensitive.

use crate::text::{spaced, split_words, texts, words};
use vstd::prelude::*;
use vstd::string::StringExecFns;

verus! {

/// One command of the text protocol.
#[derive(Clone, Debug, PartialEq, Eq)]
pub enum Action {
    /// Read one frame from the device.
    Read,
    /// Write the payload to the device.
    Write(String),
}

/// Why a line is no command. Each variant holds a message for the operator.
#[derive(Clone, Debug, PartialEq, Eq)]
pub enum ActionConversionError {
    /// The first word names no operation.
    UndefinedOpSequence(String),
    /// The line holds no word.
    EmptyOpSequence(String),
    /// The operation is known and what follows it does not fit.
    MalformedOpSequence(String),
}

/// An [`Action`] as plain values.
pub enum ActionView {
    Read,
    Write(Seq<char>),
}

/// An [`ActionConversionError`] as plain values.
pub enum ConversionErrorView {
    UndefinedOpSequence(Seq<char>),
    EmptyOpSequence(Seq<char>),
    MalformedOpSequence(Seq<char>),
}

impl View for Action {
    type V = ActionView;

    open spec fn view(&self) -> ActionView {
        match self {
            Action::Read => ActionView::Read,
            Action::Write(payload) => ActionView::Write(payload@),
        }
    }
}

impl View for ActionConversionError {
    type V = ConversionErrorView;

    open spec fn view(&self) -> ConversionErrorView {
        match self {
            ActionConversionError::UndefinedOpSequence(m) => ConversionErrorView::UndefinedOpSequence(
                m@,
            ),
            ActionConversionError::EmptyOpSequence(m) => ConversionErrorView::EmptyOpSequence(m@),
            ActionConversionError::MalformedOpSequence(m) => ConversionErrorView::MalformedOpSequence(
                m@,
            ),
        }
    }
}

/// The word that asks for a read.
pub open spec fn read_keyword() -> Seq<char> {
    "READ"@
}

/// The word that asks for a write.
pub open spec fn write_keyword() -> Seq<char> {
    "WRITE"@
}

/// The message of a line without words.
pub open spec fn empty_message() -> Seq<char> {
    "[Action as TryFrom::try_from] Empty sequence as input"@
}

/// The message of a line whose first word `op` names no operation.
pub open spec fn undefined_message(op: Seq<char>, line: Seq<char>) -> Seq<char> {
    "[Action as TryFrom::try_from] Undefined operation "@ + op + " from sequence "@ + line
}

/// What a line of input means.
pub open spec fn parsed(line: Seq<char>) -> Result<ActionView, ConversionErrorView> {
    let found = words(line);
    if found.len() == 0 {
        Err(ConversionErrorView::EmptyOpSequence(empty_message()))
    } else if found[0] == read_keyword() {
        Ok(ActionView::Read)
    } else if found[0] == write_keyword() {
        Ok(ActionView::Write(spaced(found.skip(1))))
    } else {
        Err(ConversionErrorView::UndefinedOpSequence(undefined_message(found[0], line)))
    }
}

/// What comes back from parsing, as plain values.
pub open spec fn parse_view(r: Result<Action, ActionConversionError>) -> Result<
    ActionView,
    ConversionErrorView,
> {
    match r {
        Ok(action) => Ok(action@),
        Err(e) => Err(e@),
    }
}

/// The words from the second on, each followed by one space.
fn join_arguments(found: &Vec<String>) -> (payload: String)
    requires
        found@.len() > 0,
    ensures
        payload@ == spaced(texts(found@).skip(1)),
{
    let mut payload = String::new();
    let mut i: usize = 1;
    proof {
        assert(texts(found@).subrange(1, 1) =~= Seq::<Seq<char>>::empty());
    }
    while i < found.len()
        invariant
            1 <= i <= found@.len(),
            payload@ == spaced(texts(found@).subrange(1, i as int)),
        decreases found@.len() - i,
    {
        proof {
            let upto = texts(found@).subrange(1, i + 1);
            assert(upto.drop_last() =~= texts(found@).subrange(1, i as int));
            assert(upto.last() == found@[i as int]@);
        }
        payload.append(found[i].as_str());
        payload.push(' ');
        i = i + 1;
    }
    proof {
        assert(texts(found@).subrange(1, found@.len() as int) =~= texts(found@).skip(1));
    }
    payload
}

impl Action {
    /// Reads one line of input as a command.
    ///
    /// The line is split into words at ASCII whitespace. Without a word it is
    /// empty; with `READ` first it is a read, whatever follows; with `WRITE`
    /// first it is a write of the remaining words, each followed by one space;
    /// with any other first word the operation is undefined.
    pub fn try_from(action: &str) -> (r: Result<Action, ActionConversionError>)
        ensures
            parse_view(r) == parsed(action@),
    {
        let found = split_words(action);
        if found.len() == 0 {
            return Err(
                ActionConversionError::EmptyOpSequence(
                    String::from_str("[Action as TryFrom::try_from] Empty sequence as input"),
                ),
            );
        }
        assert(texts(found@)[0] == found@[0]@);
        let read = String::from_str("READ");
        if found[0] == read {
            return Ok(Action::Read);
        }
        let write = String::from_str("WRITE");
        if found[0] == write {
            let payload = join_arguments(&found);
            return Ok(Action::Write(payload));
        }
        let mut message = String::from_str("[Action as TryFrom::try_from] Undefined operation ");
        message.append(found[0].as_str());
        message.append(" from sequence ");
        message.append(action);
        Err(ActionConversionError::UndefinedOpSequence(message))
    }

    /// The command as a line of the text protocol, without its terminator.
    pub fn to_string(&self) -> (line: String)
        ensures
            line@ == match self@ {
                ActionView::Read => read_keyword(),
                ActionView::Write(payload) => "WRITE "@ + payload,
            },
    {
        match self {
            Action::Read => String::from_str("READ"),
            Action::Write(payload) => {
                let mut line = String::from_str("WRITE ");
                line.append(payload.as_str());
                line
            },
        }
    }
}

} // verus!
