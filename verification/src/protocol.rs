//! The wire protocol: comma-separated command items, each `op[uri][=counter]`.

use crate::text::{find_byte, lemma_position, parse_unsigned, position, to_vec, unsigned_decimal};
use vstd::prelude::*;

verus! {

/// `','`, which separates the items of a message.
pub const COMMA: u8 = 44;

/// `'='`, which separates a resource from its counter.
pub const EQUALS: u8 = 61;

/// One command item of a client message.
pub enum Command {
    /// `N`: the session-start handshake. A session is opened when its
    /// connection is; inside a message of an open session the item changes
    /// nothing.
    Start,
    /// `ccus=<token>`: the authentication handshake; nothing after it in the
    /// message is processed.
    Handshake,
    /// `+<uri>=<counter>`: watch `uri`; the client already has `counter`.
    Subscribe { uri: Vec<u8>, counter: u64 },
    /// `-<uri>`: stop watching `uri`.
    Unsubscribe { uri: Vec<u8> },
    /// `-*`: stop watching everything.
    UnsubscribeAll,
    /// `?`: ask for what changed since the last reply.
    Poll,
    /// Anything else; it is skipped.
    Skip,
}

/// A command item as mathematics.
pub enum CommandView {
    Start,
    Handshake,
    Subscribe { uri: Seq<u8>, counter: u64 },
    Unsubscribe { uri: Seq<u8> },
    UnsubscribeAll,
    Poll,
    Skip,
}

impl View for Command {
    type V = CommandView;

    open spec fn view(&self) -> CommandView {
        match self {
            Command::Start => CommandView::Start,
            Command::Handshake => CommandView::Handshake,
            Command::Subscribe { uri, counter } => CommandView::Subscribe {
                uri: uri@,
                counter: *counter,
            },
            Command::Unsubscribe { uri } => CommandView::Unsubscribe { uri: uri@ },
            Command::UnsubscribeAll => CommandView::UnsubscribeAll,
            Command::Poll => CommandView::Poll,
            Command::Skip => CommandView::Skip,
        }
    }
}

/// The counter that a client declares: the decimal number, or 0 where the
/// text is not one.
pub open spec fn declared_counter(text: Seq<u8>) -> u64 {
    match unsigned_decimal(text, u64::MAX as nat) {
        Some(v) => v as u64,
        None => 0,
    }
}

/// The bytes `ccus`.
pub open spec fn handshake_word() -> Seq<u8> {
    seq![99u8, 99u8, 117u8, 115u8]
}

/// What an item without `'='` means.
pub open spec fn parse_plain(item: Seq<u8>) -> CommandView {
    if item == seq![78u8] {
        CommandView::Start
    } else if item == seq![63u8] {
        CommandView::Poll
    } else if item.len() > 0 && item[0] == 45 {
        let rest = item.subrange(1, item.len() as int);
        if rest == seq![42u8] {
            CommandView::UnsubscribeAll
        } else {
            CommandView::Unsubscribe { uri: rest }
        }
    } else {
        CommandView::Skip
    }
}

/// What an item with exactly one `'='` means, given the text before and
/// after it.
pub open spec fn parse_pair(lhs: Seq<u8>, rhs: Seq<u8>) -> CommandView {
    if lhs == handshake_word() {
        CommandView::Handshake
    } else if lhs.len() > 0 && lhs[0] == 43 {
        CommandView::Subscribe {
            uri: lhs.subrange(1, lhs.len() as int),
            counter: declared_counter(rhs),
        }
    } else {
        CommandView::Skip
    }
}

/// What one item means. An item with more than one `'='`, or with an
/// operation that the protocol does not know, is skipped.
pub open spec fn parse_item_spec(item: Seq<u8>) -> CommandView {
    let p = position(item, EQUALS);
    if p == item.len() {
        parse_plain(item)
    } else {
        let lhs = item.subrange(0, p);
        let rhs = item.subrange(p + 1, item.len() as int);
        if rhs.contains(EQUALS) {
            CommandView::Skip
        } else {
            parse_pair(lhs, rhs)
        }
    }
}

/// The commands of a message, in order, up to but without the first
/// handshake item.
pub open spec fn message_commands(msg: Seq<u8>) -> Seq<CommandView>
    decreases msg.len(),
{
    let p = position(msg, COMMA);
    let c = parse_item_spec(msg.subrange(0, p));
    if c is Handshake {
        Seq::empty()
    } else if p >= msg.len() {
        seq![c]
    } else {
        proof {
            lemma_position(msg, COMMA);
        }
        seq![c] + message_commands(msg.subrange(p + 1, msg.len() as int))
    }
}

/// The views of a list of commands.
pub open spec fn command_views(cmds: Seq<Command>) -> Seq<CommandView> {
    Seq::new(cmds.len(), |i: int| cmds[i]@)
}

/// Parses one item.
pub fn parse_item(item: &[u8]) -> (c: Command)
    ensures
        c@ == parse_item_spec(item@),
{
    let n: usize = item.len();
    let p: usize = find_byte(item, 0, EQUALS);
    assert(item@.subrange(0, n as int) =~= item@);
    if p == n {
        if n == 1 && item[0] == 78 {
            assert(item@ =~= seq![78u8]);
            Command::Start
        } else if n == 1 && item[0] == 63 {
            assert(item@ =~= seq![63u8]);
            Command::Poll
        } else if n > 0 && item[0] == 45 {
            let rest = &item[1..n];
            if n == 2 && item[1] == 42 {
                assert(rest@ =~= seq![42u8]);
                Command::UnsubscribeAll
            } else {
                assert(rest@ != seq![42u8]) by {
                    if rest@ == seq![42u8] {
                        assert(rest@.len() == 1);
                        assert(rest@[0] == 42);
                    }
                }
                Command::Unsubscribe { uri: to_vec(rest) }
            }
        } else {
            assert(item@ != seq![78u8]) by {
                if item@ == seq![78u8] {
                    assert(item@.len() == 1 && item@[0] == 78);
                }
            }
            assert(item@ != seq![63u8]) by {
                if item@ == seq![63u8] {
                    assert(item@.len() == 1 && item@[0] == 63);
                }
            }
            Command::Skip
        }
    } else {
        let lhs = &item[0..p];
        let rhs = &item[p + 1..n];
        let q: usize = find_byte(rhs, 0, EQUALS);
        proof {
            assert(rhs@.subrange(0, rhs@.len() as int) =~= rhs@);
            lemma_position(rhs@, EQUALS);
        }
        if q < rhs.len() {
            Command::Skip
        } else if p == 4 && lhs[0] == 99 && lhs[1] == 99 && lhs[2] == 117 && lhs[3] == 115 {
            assert(lhs@ =~= handshake_word());
            Command::Handshake
        } else {
            assert(lhs@ != handshake_word()) by {
                if lhs@ == handshake_word() {
                    assert(lhs@.len() == 4);
                    assert(lhs@[0] == 99 && lhs@[1] == 99 && lhs@[2] == 117 && lhs@[3] == 115);
                }
            }
            if p > 0 && lhs[0] == 43 {
                let counter: u64 = match parse_unsigned(rhs, u64::MAX) {
                    Some(v) => v,
                    None => 0,
                };
                Command::Subscribe { uri: to_vec(&lhs[1..p]), counter }
            } else {
                Command::Skip
            }
        }
    }
}

/// Parses a message into its commands, up to but without the first
/// handshake item.
pub fn parse_message(msg: &[u8]) -> (cmds: Vec<Command>)
    ensures
        command_views(cmds@) == message_commands(msg@),
{
    let n: usize = msg.len();
    let mut cmds: Vec<Command> = Vec::new();
    let mut start: usize = 0;
    let mut done: bool = false;
    assert(msg@.subrange(0, n as int) =~= msg@);
    assert(command_views(cmds@) =~= Seq::<CommandView>::empty());
    while !done
        invariant
            n == msg@.len(),
            start <= n,
            !done ==> message_commands(msg@) == command_views(cmds@) + message_commands(
                msg@.subrange(start as int, n as int),
            ),
            done ==> message_commands(msg@) == command_views(cmds@),
        decreases (if done { 0int } else { 1int }), n - start,
    {
        let ghost rest = msg@.subrange(start as int, n as int);
        let end: usize = find_byte(msg, start, COMMA);
        let c = parse_item(&msg[start..end]);
        assert(msg@.subrange(start as int, end as int) =~= rest.subrange(0, end - start));
        let ghost before = command_views(cmds@);
        match c {
            Command::Handshake => {
                done = true;
                assert(before + Seq::<CommandView>::empty() =~= before);
            },
            _ => {
                cmds.push(c);
                assert(command_views(cmds@) =~= before + seq![c@]);
                if end == n {
                    done = true;
                } else {
                    assert(rest.subrange(end - start + 1, rest.len() as int) =~= msg@.subrange(
                        end + 1,
                        n as int,
                    ));
                    assert(before + (seq![c@] + message_commands(
                        msg@.subrange(end + 1, n as int),
                    )) =~= command_views(cmds@) + message_commands(
                        msg@.subrange(end + 1, n as int),
                    ));
                    start = end + 1;
                }
            },
        }
    }
    cmds
}

} // verus!
