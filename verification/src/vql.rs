//! The query language of the full-text search: expressions of operands and
//! comparison or logical operators, parsed into a tree.

use crate::text::{find_byte, position};
use vstd::prelude::*;
use vstd::string::StringExecFns;
use vstd::string::StringSliceAdditionalSpecFns;
use vstd::utf8::{decode_utf8, encode_utf8_decode_utf8, valid_utf8};

verus! {

/// How an operand was written.
#[derive(Debug, PartialEq, Eq, Structural, Clone, Copy)]
pub enum Decor {
    /// A bare word.
    NONE,
    /// Between quotes, backticks or square brackets.
    QUOTED,
    /// A range.
    RANGE,
}

/// A node of an expression tree: an operator with its two sides, or an
/// operand.
#[derive(Debug)]
pub struct TTA {
    pub(crate) op: String,
    pub(crate) token_decor: Decor,
    pub(crate) l: Option<Box<TTA>>,
    pub(crate) r: Option<Box<TTA>>,
    count: i32,
}

/// An expression tree as mathematics.
pub struct Tree {
    pub op: Seq<char>,
    pub decor: Decor,
    pub l: Option<Box<Tree>>,
    pub r: Option<Box<Tree>>,
}

/// An operator of the query language, or the opening parenthesis that
/// waits on the operator stack for its partner.
#[derive(Debug, PartialEq, Eq, Structural, Clone, Copy)]
pub enum Operator {
    /// `(`
    Open,
    /// `<`
    Lt,
    /// `>`
    Gt,
    /// `<=`
    Le,
    /// `>=`
    Ge,
    /// `==`
    Eq,
    /// `===`: equal, subclasses included
    Same,
    /// `!=`
    Ne,
    /// `=*`: full-text match
    Like,
    /// `=+`
    Plus,
    /// `||`
    Or,
    /// `&&`
    And,
}

/// What the parser makes of a text: a tree, no tree, or a fault where the
/// text cannot be read.
pub enum Outcome {
    Fault,
    Done(Option<Box<Tree>>),
}

/// The text of an operator.
pub open spec fn op_text(op: Operator) -> Seq<char> {
    match op {
        Operator::Open => "("@,
        Operator::Lt => "<"@,
        Operator::Gt => ">"@,
        Operator::Le => "<="@,
        Operator::Ge => ">="@,
        Operator::Eq => "=="@,
        Operator::Same => "==="@,
        Operator::Ne => "!="@,
        Operator::Like => "=*"@,
        Operator::Plus => "=+"@,
        Operator::Or => "||"@,
        Operator::And => "&&"@,
    }
}

/// The number of bytes of an operator's text.
pub open spec fn op_len(op: Operator) -> int {
    match op {
        Operator::Open | Operator::Lt | Operator::Gt => 1,
        Operator::Same => 3,
        _ => 2,
    }
}

/// How strongly an operator binds. `>=` and the parenthesis have the
/// weakest rank.
pub open spec fn priority_of(op: Operator) -> int {
    match op {
        Operator::Lt | Operator::Le | Operator::Gt => 4,
        Operator::Eq | Operator::Ne | Operator::Like | Operator::Plus | Operator::Same => 3,
        Operator::And => 2,
        Operator::Or => 1,
        Operator::Open | Operator::Ge => -1,
    }
}

/// True for the bytes that separate tokens: space, tab, carriage return
/// and line feed.
pub open spec fn is_delim(c: u8) -> bool {
    c == 32 || c == 9 || c == 13 || c == 10
}

/// True for the bytes at which a bare operand ends.
pub open spec fn is_stop(c: u8) -> bool {
    c == 32 || c == 38 || c == 124 || c == 61 || c == 60 || c == 62 || c == 33 || c == 45
}

/// The operator that the bytes `c` spell, if they spell one. A `<` or `>`
/// followed by a byte other than `=` is the operator alone.
pub open spec fn op_of(c: Seq<u8>) -> Option<Operator> {
    if c.len() == 1 {
        if c[0] == 62 {
            Some(Operator::Gt)
        } else if c[0] == 60 {
            Some(Operator::Lt)
        } else {
            None
        }
    } else if c.len() == 2 {
        if c[0] == 62 && c[1] == 61 {
            Some(Operator::Ge)
        } else if c[0] == 60 && c[1] == 61 {
            Some(Operator::Le)
        } else if c[0] == 61 && c[1] == 61 {
            Some(Operator::Eq)
        } else if c[0] == 33 && c[1] == 61 {
            Some(Operator::Ne)
        } else if c[0] == 61 && c[1] == 42 {
            Some(Operator::Like)
        } else if c[0] == 61 && c[1] == 43 {
            Some(Operator::Plus)
        } else if c[0] == 124 && c[1] == 124 {
            Some(Operator::Or)
        } else if c[0] == 38 && c[1] == 38 {
            Some(Operator::And)
        } else if c[0] == 62 {
            Some(Operator::Gt)
        } else if c[0] == 60 {
            Some(Operator::Lt)
        } else {
            None
        }
    } else if c.len() == 3 {
        if c[0] == 61 && c[1] == 61 && c[2] == 61 {
            Some(Operator::Same)
        } else {
            None
        }
    } else {
        None
    }
}

/// The top of a stack of trees, if it has one.
pub open spec fn top(st: Seq<Tree>) -> Option<Box<Tree>> {
    if st.len() > 0 {
        Some(Box::new(st.last()))
    } else {
        None
    }
}

/// A stack without its top; the empty stack stays empty.
pub open spec fn pop<A>(st: Seq<A>) -> Seq<A> {
    if st.len() > 0 {
        st.drop_last()
    } else {
        st
    }
}

/// The operand stack after an operator was applied: the two topmost trees
/// become the right and the left side of a new node. For the parenthesis
/// they are dropped and no node is made.
pub open spec fn process(st: Seq<Tree>, op: Operator) -> Seq<Tree> {
    let r = top(st);
    let l = top(pop(st));
    let rest = pop(pop(st));
    if op is Open {
        rest
    } else {
        rest.push(Tree { op: op_text(op), decor: Decor::NONE, l, r })
    }
}

/// The two stacks after a closing parenthesis: operators are applied from
/// the top down to the opening parenthesis, which goes together with the
/// operator below it.
pub open spec fn close(st: Seq<Tree>, ops: Seq<Operator>) -> (Seq<Tree>, Seq<Operator>)
    decreases ops.len(),
{
    if ops.len() == 0 {
        (st, ops)
    } else if ops.last() is Open {
        (st, pop(ops.drop_last()))
    } else {
        close(process(st, ops.last()), ops.drop_last())
    }
}

/// The two stacks after the operator `cur` came up: operators that bind
/// more strongly are applied from the top down; the first that does not is
/// dropped.
pub open spec fn reduce(st: Seq<Tree>, ops: Seq<Operator>, cur: Operator) -> (
    Seq<Tree>,
    Seq<Operator>,
)
    decreases ops.len(),
{
    if ops.len() == 0 {
        (st, ops)
    } else if priority_of(ops.last()) <= priority_of(cur) {
        (st, ops.drop_last())
    } else {
        reduce(process(st, ops.last()), ops.drop_last(), cur)
    }
}

/// The operand stack after all operators that are left were applied, from
/// the top down.
pub open spec fn drain(st: Seq<Tree>, ops: Seq<Operator>) -> Seq<Tree>
    decreases ops.len(),
{
    if ops.len() == 0 {
        st
    } else {
        drain(process(st, ops.last()), ops.drop_last())
    }
}

/// The end of the bare operand that starts at `from`: the first stop byte
/// at or after it, or the end of the text.
pub open spec fn bare_end(s: Seq<u8>, from: int) -> int
    decreases s.len() - from,
{
    if from < 0 || from >= s.len() || is_stop(s[from]) {
        from
    } else {
        bare_end(s, from + 1)
    }
}

/// The operand stack with an operand on top, if the operand's bytes are
/// well-formed UTF-8; else the stack as it is.
pub open spec fn with_operand(st: Seq<Tree>, bytes: Seq<u8>, decor: Decor) -> Seq<Tree> {
    if valid_utf8(bytes) {
        st.push(Tree { op: decode_utf8(bytes), decor, l: None, r: None })
    } else {
        st
    }
}

/// The state of the parser between two tokens: the position in the text
/// and the two stacks.
pub struct Cursor {
    pub at: int,
    pub st: Seq<Tree>,
    pub ops: Seq<Operator>,
}

/// The end of the bytes that are looked at for an operator at `i`: two
/// bytes, none for the last byte of the text, and one more where both the
/// first and the third are `=`. `None` where the third byte is called for
/// and the text has none.
pub open spec fn op_end(s: Seq<u8>, i: int) -> Option<int> {
    let e = if i + 2 > s.len() {
        s.len() - 1
    } else {
        i + 2
    };
    if s[i] == 61 {
        if e >= s.len() {
            None
        } else if s[e] == 61 {
            Some(e + 1)
        } else {
            Some(e)
        }
    } else {
        Some(e)
    }
}

/// The parser after the quoted operand whose opening quote is at `i`: the
/// operand runs up to the closing quote, or to the end of the text.
pub open spec fn quoted_operand(s: Seq<u8>, i: int, st: Seq<Tree>, ops: Seq<Operator>) -> Cursor {
    let closing: u8 = if s[i] == 91 {
        93
    } else {
        s[i]
    };
    let end = i + 1 + position(s.subrange(i + 1, s.len() as int), closing);
    Cursor { at: end + 1, st: with_operand(st, s.subrange(i + 1, end), Decor::QUOTED), ops }
}

/// The parser after the bare operand that starts at `i`, or `None` where
/// the text cannot be read. An operand that ends in a parenthesis gives the
/// parenthesis back, and a quote before it as well.
pub open spec fn bare_operand(s: Seq<u8>, i: int, st: Seq<Tree>, ops: Seq<Operator>) -> Option<
    Cursor,
> {
    let end = bare_end(s, i);
    if end < 1 {
        None
    } else if s[end - 1] == 40 || s[end - 1] == 41 {
        if end < 2 {
            None
        } else {
            let cut = if s[end - 2] != 39 {
                end - 1
            } else {
                end - 2
            };
            if cut < i {
                None
            } else {
                Some(
                    Cursor {
                        at: end - 1,
                        st: with_operand(st, s.subrange(i, cut), Decor::NONE),
                        ops,
                    },
                )
            }
        }
    } else {
        Some(Cursor { at: end + 1, st: with_operand(st, s.subrange(i, end), Decor::NONE), ops })
    }
}

/// The parser after the token at `at`, or `None` where the text cannot be
/// read.
pub open spec fn token(s: Seq<u8>, c: Cursor) -> Option<Cursor> {
    let i = c.at;
    if is_delim(s[i]) {
        Some(Cursor { at: i + 1, st: c.st, ops: c.ops })
    } else if s[i] == 40 {
        Some(Cursor { at: i + 1, st: c.st, ops: c.ops.push(Operator::Open) })
    } else if s[i] == 41 {
        let (st, ops) = close(c.st, c.ops);
        Some(Cursor { at: i + 1, st, ops })
    } else {
        match op_end(s, i) {
            None => None,
            Some(e) => match op_of(s.subrange(i, e)) {
                Some(cur) => {
                    let (st, ops) = reduce(c.st, c.ops, cur);
                    Some(Cursor { at: i + op_len(cur), st, ops: ops.push(cur) })
                },
                None => if s[i] == 39 || s[i] == 96 || s[i] == 91 {
                    Some(quoted_operand(s, i, c.st, c.ops))
                } else {
                    bare_operand(s, i, c.st, c.ops)
                },
            },
        }
    }
}

/// What the parser makes of the text from the cursor on.
pub open spec fn parse_from(s: Seq<u8>, c: Cursor) -> Outcome
    decreases
        (if c.at < s.len() {
            s.len() - c.at
        } else {
            0
        }),
{
    if c.at < 0 {
        Outcome::Fault
    } else if c.at >= s.len() {
        Outcome::Done(top(drain(c.st, c.ops)))
    } else {
        let next = token(s, c);
        if next is Some && next->0.at > c.at {
            parse_from(s, next->0)
        } else {
            Outcome::Fault
        }
    }
}

/// What the parser makes of a text.
pub open spec fn parse(s: Seq<u8>) -> Outcome {
    parse_from(s, Cursor { at: 0, st: Seq::empty(), ops: Seq::empty() })
}

/// The trees of a stack of nodes.
pub open spec fn trees(st: Seq<Box<TTA>>) -> Seq<Tree> {
    Seq::new(st.len(), |i: int| st[i].tree())
}

/// The view of an optional subtree.
pub open spec fn subtree(t: Option<Box<TTA>>) -> Option<Box<Tree>>
    decreases t,
{
    match t {
        Some(b) => Some(Box::new(b.tree())),
        None => None,
    }
}

/// The text that shows a tree: `op=` and the node's text, then the left
/// side after `L=` and the right side after `R=`, each on a line of its own.
pub open spec fn display(t: Tree) -> Seq<char>
    decreases t,
{
    "op="@ + t.op + (match t.l {
        Some(l) => "\nL="@ + display(*l),
        None => Seq::empty(),
    }) + (match t.r {
        Some(r) => "\nR="@ + display(*r),
        None => Seq::empty(),
    })
}

impl TTA {
    /// The tree that the node stands for.
    pub closed spec fn tree(&self) -> Tree
        decreases self,
    {
        Tree {
            op: self.op@,
            decor: self.token_decor,
            l: subtree(self.l),
            r: subtree(self.r),
        }
    }

    /// A node with the text `op` and the given sides.
    pub fn new(op: &str, l: Option<Box<TTA>>, r: Option<Box<TTA>>, token_decor: Decor) -> (t: Self)
        ensures
            t.tree() == (Tree { op: op@, decor: token_decor, l: subtree(l), r: subtree(r) }),
    {
        Self { op: op.to_owned(), token_decor, l, r, count: 0 }
    }

    /// The node's text: the operator, or the operand.
    pub fn op(&self) -> (s: &str)
        ensures
            s@ == self.tree().op,
    {
        self.op.as_str()
    }

    /// How the operand was written.
    pub fn decor(&self) -> (d: Decor)
        ensures
            d == self.tree().decor,
    {
        self.token_decor
    }

    /// The left side.
    pub fn left(&self) -> (t: Option<&TTA>)
        ensures
            match t {
                Some(n) => self.tree().l == Some(Box::new(n.tree())),
                None => self.tree().l is None,
            },
    {
        match &self.l {
            Some(b) => Some(&**b),
            None => None,
        }
    }

    /// The right side.
    pub fn right(&self) -> (t: Option<&TTA>)
        ensures
            match t {
                Some(n) => self.tree().r == Some(Box::new(n.tree())),
                None => self.tree().r is None,
            },
    {
        match &self.r {
            Some(b) => Some(&**b),
            None => None,
        }
    }

    /// Shows the tree as text.
    pub fn to_string(&self) -> (s: String)
        ensures
            s@ == display(self.tree()),
        decreases self,
    {
        let mut s = String::from_str("op=");
        s.append(self.op.as_str());
        match &self.l {
            Some(l) => {
                s.append("\nL=");
                let sub = l.to_string();
                s.append(sub.as_str());
            },
            None => {},
        }
        match &self.r {
            Some(r) => {
                s.append("\nR=");
                let sub = r.to_string();
                s.append(sub.as_str());
            },
            None => {},
        }
        assert(s@ =~= display(self.tree()));
        s
    }
}

/// Checks with `core::str::from_utf8` whether `bytes` are well-formed UTF-8
/// and, where they are, hands them back as a string slice. The contract
/// claims that the check succeeds exactly on well-formed UTF-8 and that
/// the slice holds the same bytes.
#[verifier::external_body]
fn utf8(bytes: &[u8]) -> (r: Option<&str>)
    ensures
        match r {
            Some(s) => valid_utf8(bytes@) && s.spec_bytes() == bytes@,
            None => !valid_utf8(bytes@),
        },
{
    std::str::from_utf8(bytes).ok()
}

impl Operator {
    /// The text of the operator.
    pub fn text(self) -> (t: &'static str)
        ensures
            t@ == op_text(self),
    {
        match self {
            Operator::Open => "(",
            Operator::Lt => "<",
            Operator::Gt => ">",
            Operator::Le => "<=",
            Operator::Ge => ">=",
            Operator::Eq => "==",
            Operator::Same => "===",
            Operator::Ne => "!=",
            Operator::Like => "=*",
            Operator::Plus => "=+",
            Operator::Or => "||",
            Operator::And => "&&",
        }
    }

    /// The number of bytes of the operator's text.
    pub fn len(self) -> (n: usize)
        ensures
            n == op_len(self),
    {
        match self {
            Operator::Open | Operator::Lt | Operator::Gt => 1,
            Operator::Same => 3,
            _ => 2,
        }
    }
}

/// Tells whether `c` separates tokens.
pub fn delim(c: u8) -> (b: bool)
    ensures
        b == is_delim(c),
{
    c == 32 || c == 9 || c == 13 || c == 10
}

/// Tells whether a bare operand ends at `c`.
pub fn stop(c: u8) -> (b: bool)
    ensures
        b == is_stop(c),
{
    c == 32 || c == 38 || c == 124 || c == 61 || c == 60 || c == 62 || c == 33 || c == 45
}

/// Reads `c` as an operator.
pub fn is_op(c: &[u8]) -> (r: Option<Operator>)
    ensures
        r == op_of(c@),
{
    if c.len() == 1 {
        if c[0] == 62 {
            Some(Operator::Gt)
        } else if c[0] == 60 {
            Some(Operator::Lt)
        } else {
            None
        }
    } else if c.len() == 2 {
        let a: u8 = c[0];
        let b: u8 = c[1];
        if a == 62 && b == 61 {
            Some(Operator::Ge)
        } else if a == 60 && b == 61 {
            Some(Operator::Le)
        } else if a == 61 && b == 61 {
            Some(Operator::Eq)
        } else if a == 33 && b == 61 {
            Some(Operator::Ne)
        } else if a == 61 && b == 42 {
            Some(Operator::Like)
        } else if a == 61 && b == 43 {
            Some(Operator::Plus)
        } else if a == 124 && b == 124 {
            Some(Operator::Or)
        } else if a == 38 && b == 38 {
            Some(Operator::And)
        } else if a == 62 {
            Some(Operator::Gt)
        } else if a == 60 {
            Some(Operator::Lt)
        } else {
            None
        }
    } else if c.len() == 3 {
        if c[0] == 61 && c[1] == 61 && c[2] == 61 {
            Some(Operator::Same)
        } else {
            None
        }
    } else {
        None
    }
}

/// How strongly `op` binds.
pub fn priority(op: Operator) -> (p: i32)
    ensures
        p == priority_of(op),
{
    match op {
        Operator::Lt | Operator::Le | Operator::Gt => 4,
        Operator::Eq | Operator::Ne | Operator::Like | Operator::Plus | Operator::Same => 3,
        Operator::And => 2,
        Operator::Or => 1,
        Operator::Open | Operator::Ge => -1,
    }
}

/// Applies `op` to the operand stack.
pub fn process_op(st: &mut Vec<Box<TTA>>, op: Operator)
    ensures
        trees(final(st)@) == process(trees(old(st)@), op),
{
    let ghost before = trees(st@);
    let r = st.pop();
    let ghost mid = trees(st@);
    let l = st.pop();
    proof {
        assert(mid =~= pop(before));
        assert(trees(st@) =~= pop(pop(before)));
        assert(subtree(r) == top(before));
        assert(subtree(l) == top(mid));
    }
    match op {
        Operator::Open => {},
        _ => {
            let ghost rest = trees(st@);
            let node = TTA::new(op.text(), l, r, Decor::NONE);
            st.push(Box::new(node));
            assert(trees(st@) =~= rest.push(node.tree()));
        },
    }
}

/// Puts an operand on the stack, unless its bytes are not well-formed
/// UTF-8.
fn push_operand(st: &mut Vec<Box<TTA>>, bytes: &[u8], decor: Decor)
    ensures
        trees(final(st)@) == with_operand(trees(old(st)@), bytes@, decor),
{
    let ghost before = trees(st@);
    match utf8(bytes) {
        Some(text) => {
            proof {
                encode_utf8_decode_utf8(text@);
            }
            let node = TTA::new(text, None, None, decor);
            st.push(Box::new(node));
            assert(trees(st@) =~= before.push(node.tree()));
        },
        None => {},
    }
}

/// Handles a closing parenthesis.
fn close_paren(st: &mut Vec<Box<TTA>>, ops: &mut Vec<Operator>)
    ensures
        trees(final(st)@) == close(trees(old(st)@), old(ops)@).0,
        final(ops)@ == close(trees(old(st)@), old(ops)@).1,
{
    while ops.len() > 0
        invariant
            close(trees(st@), ops@) == close(trees(old(st)@), old(ops)@),
        decreases ops.len(),
    {
        let ghost before = ops@;
        let last = ops.pop().unwrap();
        assert(last == before.last() && ops@ == before.drop_last());
        match last {
            Operator::Open => {
                let ghost rest = ops@;
                let _ = ops.pop();
                assert(ops@ =~= pop(rest));
                return;
            },
            _ => {
                process_op(st, last);
            },
        }
    }
}

/// Makes room on the operator stack for `cur` and pushes it.
fn push_operator(st: &mut Vec<Box<TTA>>, ops: &mut Vec<Operator>, cur: Operator)
    ensures
        trees(final(st)@) == reduce(trees(old(st)@), old(ops)@, cur).0,
        final(ops)@ == reduce(trees(old(st)@), old(ops)@, cur).1.push(cur),
{
    let mut open: bool = true;
    while open && ops.len() > 0
        invariant
            open ==> reduce(trees(st@), ops@, cur) == reduce(trees(old(st)@), old(ops)@, cur),
            !open ==> trees(st@) == reduce(trees(old(st)@), old(ops)@, cur).0 && ops@ == reduce(
                trees(old(st)@),
                old(ops)@,
                cur,
            ).1,
        decreases ops.len(),
    {
        let ghost before = ops@;
        let last = ops.pop().unwrap();
        assert(last == before.last() && ops@ == before.drop_last());
        if priority(last) <= priority(cur) {
            open = false;
        } else {
            process_op(st, last);
        }
    }
    ops.push(cur);
}

/// Applies all operators that are left.
fn drain_operators(st: &mut Vec<Box<TTA>>, ops: &mut Vec<Operator>)
    ensures
        trees(final(st)@) == drain(trees(old(st)@), old(ops)@),
{
    while ops.len() > 0
        invariant
            drain(trees(st@), ops@) == drain(trees(old(st)@), old(ops)@),
        decreases ops.len(),
    {
        let ghost before = ops@;
        let last = ops.pop().unwrap();
        assert(last == before.last() && ops@ == before.drop_last());
        process_op(st, last);
    }
}

/// Finds the end of the bare operand that starts at `from`.
fn scan_bare(s: &[u8], from: usize) -> (end: usize)
    requires
        from <= s@.len(),
    ensures
        from <= end <= s@.len(),
        end == bare_end(s@, from as int),
{
    let mut i: usize = from;
    while i < s.len() && !stop(s[i])
        invariant
            from <= i <= s@.len(),
            bare_end(s@, from as int) == bare_end(s@, i as int),
        decreases s.len() - i,
    {
        i += 1;
    }
    i
}

/// An operator is no longer than the bytes that spell it.
proof fn lemma_op_fits(c: Seq<u8>)
    ensures
        op_of(c) matches Some(op) ==> 1 <= op_len(op) <= c.len(),
{
}

/// The position to go on from: `at`, or the end of the text where `at`
/// lies beyond it.
pub open spec fn clamp(at: int, len: int) -> int {
    if at < len {
        at
    } else {
        len
    }
}

/// Finds the end of the bytes to look at for an operator at `i`.
fn operator_end(s: &[u8], i: usize) -> (e: Option<usize>)
    requires
        i < s@.len(),
    ensures
        match e {
            Some(x) => i <= x <= s@.len() && op_end(s@, i as int) == Some(x as int),
            None => op_end(s@, i as int) is None,
        },
{
    let n: usize = s.len();
    let mut e: usize = if n - i < 2 {
        n - 1
    } else {
        i + 2
    };
    if s[i] == 61 {
        if e >= n {
            return None;
        }
        if s[e] == 61 {
            e += 1;
        }
    }
    Some(e)
}

/// Reads the quoted operand whose opening quote is at `i` and returns the
/// position to go on from.
fn read_quoted(s: &[u8], i: usize, st: &mut Vec<Box<TTA>>, Ghost(ops): Ghost<Seq<Operator>>) -> (next: usize)
    requires
        i < s@.len(),
    ensures
        i < next <= s@.len(),
        next == clamp(quoted_operand(s@, i as int, trees(old(st)@), ops).at, s@.len() as int),
        trees(final(st)@) == quoted_operand(s@, i as int, trees(old(st)@), ops).st,
{
    let n: usize = s.len();
    let b: u8 = s[i];
    let closing: u8 = if b == 91 {
        93
    } else {
        b
    };
    let end: usize = find_byte(s, i + 1, closing);
    push_operand(st, &s[i + 1..end], Decor::QUOTED);
    if end < n {
        end + 1
    } else {
        n
    }
}

/// Reads the bare operand that starts at `i` and returns the position to go
/// on from, or `None` where the text cannot be read.
fn read_bare(s: &[u8], i: usize, st: &mut Vec<Box<TTA>>, Ghost(ops): Ghost<Seq<Operator>>) -> (next: Option<usize>)
    requires
        i < s@.len(),
    ensures
        match bare_operand(s@, i as int, trees(old(st)@), ops) {
            Some(c) => if c.at > i {
                next == Some(clamp(c.at, s@.len() as int) as usize) && trees(final(st)@) == c.st
            } else {
                next is None
            },
            None => next is None,
        },
{
    let n: usize = s.len();
    let end: usize = scan_bare(s, i);
    if end < 1 {
        return None;
    }
    let last: u8 = s[end - 1];
    if last == 40 || last == 41 {
        if end < 2 {
            return None;
        }
        let cut: usize = if s[end - 2] != 39 {
            end - 1
        } else {
            end - 2
        };
        if cut < i {
            return None;
        }
        if end - 1 <= i {
            return None;
        }
        push_operand(st, &s[i..cut], Decor::NONE);
        Some(end - 1)
    } else {
        push_operand(st, &s[i..end], Decor::NONE);
        if end < n {
            Some(end + 1)
        } else {
            Some(n)
        }
    }
}

/// Reads the token at `i` and returns the position to go on from, or `None`
/// where the text cannot be read.
fn read_token(s: &[u8], i: usize, st: &mut Vec<Box<TTA>>, ops: &mut Vec<Operator>) -> (next: Option<
    usize,
>)
    requires
        i < s@.len(),
    ensures
        match token(s@, Cursor { at: i as int, st: trees(old(st)@), ops: old(ops)@ }) {
            Some(c) => if c.at > i {
                next == Some(clamp(c.at, s@.len() as int) as usize) && trees(final(st)@) == c.st
                    && final(ops)@ == c.ops
            } else {
                next is None
            },
            None => next is None,
        },
{
    let b: u8 = s[i];
    if delim(b) {
        Some(i + 1)
    } else if b == 40 {
        ops.push(Operator::Open);
        Some(i + 1)
    } else if b == 41 {
        close_paren(st, ops);
        Some(i + 1)
    } else {
        match operator_end(s, i) {
            None => None,
            Some(e) => {
                proof {
                    lemma_op_fits(s@.subrange(i as int, e as int));
                }
                match is_op(&s[i..e]) {
                    Some(cur) => {
                        push_operator(st, ops, cur);
                        Some(i + cur.len())
                    },
                    None => {
                        if b == 39 || b == 96 || b == 91 {
                            Some(read_quoted(s, i, st, Ghost(ops@)))
                        } else {
                            read_bare(s, i, st, Ghost(ops@))
                        }
                    },
                }
            },
        }
    }
}

impl TTA {
    /// Parses an expression. The operand stack's top, after all operators
    /// were applied, is the result; a text that holds no operand gives
    /// `None`, and so does a text that cannot be read.
    pub fn parse_expr(src: &str) -> (t: Option<Box<TTA>>)
        ensures
            subtree(t) == (match parse(src.spec_bytes()) {
                Outcome::Done(r) => r,
                Outcome::Fault => None,
            }),
    {
        let s = src.as_bytes();
        let n: usize = s.len();
        let mut st: Vec<Box<TTA>> = Vec::new();
        let mut ops: Vec<Operator> = Vec::new();
        let mut i: usize = 0;
        assert(trees(st@) =~= Seq::<Tree>::empty());
        while i < n
            invariant
                n == s@.len(),
                i <= n,
                s@ == src.spec_bytes(),
                parse(s@) == parse_from(s@, Cursor { at: i as int, st: trees(st@), ops: ops@ }),
            decreases n - i,
        {
            let ghost c = Cursor { at: i as int, st: trees(st@), ops: ops@ };
            match read_token(s, i, &mut st, &mut ops) {
                None => {
                    assert(parse_from(s@, c) is Fault);
                    return None;
                },
                Some(next) => {
                    let ghost d = token(s@, c)->0;
                    assert(parse_from(s@, c) == parse_from(s@, d));
                    assert(parse_from(s@, d) == parse_from(
                        s@,
                        Cursor { at: next as int, st: d.st, ops: d.ops },
                    ));
                    i = next;
                },
            }
        }
        drain_operators(&mut st, &mut ops);
        let ghost done = trees(st@);
        let t = st.pop();
        assert(subtree(t) == top(done));
        t
    }
}

} // verus!
