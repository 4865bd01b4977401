//! The operator command interpreter.
//!
//! One line of operator input maps to one action:
//!
//! * `ls p` — list the known peer identities;
//! * `ls r` — list the local recipes;
//! * `ls r all` — broadcast a query to all peers;
//! * `ls r <peer-id>` — broadcast a query to one peer;
//! * `create r <name>|<ingredients>|<instructions>` — create a recipe;
//! * `publish r <id>` — publish a recipe by numeric id.
//!
//! Malformed input is a reported error, never fatal: fewer than three
//! `|`-separated fields after `create r`, a non-numeric (or out of range)
//! id after `publish r`, and anything that matches no pattern.

use vstd::prelude::*;

use crate::codec::chars_of;
use crate::codec::digit_val;
use crate::codec::digits_val;
use crate::codec::is_digit;
use crate::codec::lemma_digits_val_extend;
use crate::codec::push_char;
use crate::types::UserInputError;

verus! {

/// A parsed operator command.
#[derive(Debug)]
pub enum Command {
    /// List the currently known peers.
    ListPeers,
    /// List the local recipe collection.
    ListLocal,
    /// Broadcast a listing request to every peer.
    RequestAll,
    /// Broadcast a listing request targeted at one peer.
    RequestOne(String),
    /// Create a new local recipe.
    Create { name: String, ingredients: String, instructions: String },
    /// Publish the local recipe with this id.
    Publish(usize),
}

/// Mathematical view of a [`Command`].
pub enum CommandView {
    ListPeers,
    ListLocal,
    RequestAll,
    RequestOne(Seq<char>),
    Create { name: Seq<char>, ingredients: Seq<char>, instructions: Seq<char> },
    Publish(usize),
}

impl View for Command {
    type V = CommandView;

    open spec fn view(&self) -> CommandView {
        match self {
            Command::ListPeers => CommandView::ListPeers,
            Command::ListLocal => CommandView::ListLocal,
            Command::RequestAll => CommandView::RequestAll,
            Command::RequestOne(peer) => CommandView::RequestOne(peer@),
            Command::Create { name, ingredients, instructions } => CommandView::Create {
                name: name@,
                ingredients: ingredients@,
                instructions: instructions@,
            },
            Command::Publish(id) => CommandView::Publish(*id),
        }
    }
}

pub open spec fn lit_ls_p() -> Seq<char> {
    "ls p"@
}

pub open spec fn lit_ls_r() -> Seq<char> {
    "ls r"@
}

pub open spec fn lit_ls_r_sp() -> Seq<char> {
    "ls r "@
}

pub open spec fn lit_all_word() -> Seq<char> {
    "all"@
}

pub open spec fn lit_create_r() -> Seq<char> {
    "create r"@
}

pub open spec fn lit_publish_r() -> Seq<char> {
    "publish r"@
}

/// `s` begins with `p`.
pub open spec fn starts_with(s: Seq<char>, p: Seq<char>) -> bool {
    p.len() <= s.len() && s.subrange(0, p.len() as int) == p
}

/// The index of the first `|` at or after `from`, or the length if none.
pub open spec fn find_pipe(s: Seq<char>, from: int) -> int
    decreases s.len() - from,
{
    if !(0 <= from < s.len()) {
        s.len() as int
    } else if s[from] == '|' {
        from
    } else {
        find_pipe(s, from + 1)
    }
}

/// The whitespace that `publish r` tolerates around its id.
pub open spec fn is_space(c: char) -> bool {
    c == ' ' || c == '\t' || c == '\n' || c == '\r'
}

/// The first index at or after `from` holding a non-space, or the length.
pub open spec fn first_nonspace(s: Seq<char>, from: int) -> int
    decreases s.len() - from,
{
    if !(0 <= from < s.len()) {
        s.len() as int
    } else if is_space(s[from]) {
        first_nonspace(s, from + 1)
    } else {
        from
    }
}

/// The index just past the last non-space strictly before `upto`, or `0`.
pub open spec fn end_nonspace(s: Seq<char>, upto: int) -> int
    decreases upto,
{
    if upto <= 0 {
        0
    } else if is_space(s[upto - 1]) {
        end_nonspace(s, upto - 1)
    } else {
        upto
    }
}

/// `s` with leading and trailing whitespace removed.
pub open spec fn trimmed(s: Seq<char>) -> Seq<char> {
    let a = first_nonspace(s, 0);
    let b = end_nonspace(s, s.len() as int);
    if a <= b {
        s.subrange(a, b)
    } else {
        Seq::empty()
    }
}

/// A non-empty string of decimal digits.
pub open spec fn all_digits(d: Seq<char>) -> bool {
    d.len() > 0 && forall|k: int| 0 <= k < d.len() ==> is_digit(#[trigger] d[k])
}

/// What one operator line means, command by command, in the order the
/// patterns are tried.
pub open spec fn spec_parse_command(s: Seq<char>) -> Result<CommandView, UserInputError> {
    if s == lit_ls_p() {
        Ok(CommandView::ListPeers)
    } else if starts_with(s, lit_ls_r()) {
        if starts_with(s, lit_ls_r_sp()) {
            let rest = s.subrange(lit_ls_r_sp().len() as int, s.len() as int);
            if rest == lit_all_word() {
                Ok(CommandView::RequestAll)
            } else {
                Ok(CommandView::RequestOne(rest))
            }
        } else {
            Ok(CommandView::ListLocal)
        }
    } else if starts_with(s, lit_create_r()) {
        let rest = s.subrange(lit_create_r().len() as int, s.len() as int);
        let p1 = find_pipe(rest, 0);
        let p2 = find_pipe(rest, p1 + 1);
        if p2 >= rest.len() {
            Err(UserInputError::TooFewFields)
        } else {
            let p3 = find_pipe(rest, p2 + 1);
            Ok(
                CommandView::Create {
                    name: rest.subrange(0, p1),
                    ingredients: rest.subrange(p1 + 1, p2),
                    instructions: rest.subrange(p2 + 1, p3),
                },
            )
        }
    } else if starts_with(s, lit_publish_r()) {
        let rest = s.subrange(lit_publish_r().len() as int, s.len() as int);
        let t = trimmed(rest);
        if all_digits(t) && digits_val(t) <= usize::MAX as nat {
            Ok(CommandView::Publish(digits_val(t) as usize))
        } else {
            Err(UserInputError::InvalidId)
        }
    } else {
        Err(UserInputError::UnknownCommand)
    }
}

fn has_prefix(s: &Vec<char>, pat: &str) -> (b: bool)
    ensures
        b == starts_with(s@, pat@),
{
    let m = pat.unicode_len();
    let n = s.len();
    if m > n {
        return false;
    }
    let mut k: usize = 0;
    while k < m
        invariant
            m <= n,
            n == s@.len(),
            m == pat@.len(),
            k <= m,
            forall|t: int| 0 <= t < k ==> s@[t] == pat@[t],
        decreases m - k,
    {
        if s[k] != pat.get_char(k) {
            proof {
                let sub = s@.subrange(0, m as int);
                assert(sub[k as int] == s@[k as int]);
                assert(sub[k as int] != pat@[k as int]);
            }
            return false;
        }
        k += 1;
    }
    proof {
        assert(s@.subrange(0, m as int) =~= pat@);
    }
    true
}

fn equals_str(s: &Vec<char>, pat: &str) -> (b: bool)
    ensures
        b == (s@ == pat@),
{
    let m = pat.unicode_len();
    if s.len() != m {
        return false;
    }
    if has_prefix(s, pat) {
        proof {
            assert(s@.subrange(0, m as int) =~= s@);
        }
        true
    } else {
        proof {
            assert(s@.subrange(0, m as int) =~= s@);
        }
        false
    }
}

/// The characters of `s` from `from` on, as a fresh vector.
fn tail_chars(s: &Vec<char>, from: usize) -> (r: Vec<char>)
    requires
        from <= s@.len(),
    ensures
        r@ == s@.subrange(from as int, s@.len() as int),
{
    let n = s.len();
    let mut r: Vec<char> = Vec::new();
    let mut i: usize = from;
    while i < n
        invariant
            from <= i <= n,
            n == s@.len(),
            r@ == s@.subrange(from as int, i as int),
        decreases n - i,
    {
        r.push(s[i]);
        proof {
            assert(s@.subrange(from as int, i as int + 1) =~= s@.subrange(
                from as int,
                i as int,
            ).push(s@[i as int]));
        }
        i += 1;
    }
    r
}

/// The characters `s[a .. b]`, as a string.
fn string_range(s: &Vec<char>, a: usize, b: usize) -> (r: String)
    requires
        a <= b <= s@.len(),
    ensures
        r@ == s@.subrange(a as int, b as int),
{
    let mut r = String::new();
    let mut i: usize = a;
    while i < b
        invariant
            a <= i <= b <= s@.len(),
            r@ == s@.subrange(a as int, i as int),
        decreases b - i,
    {
        push_char(&mut r, s[i]);
        proof {
            assert(s@.subrange(a as int, i as int + 1) =~= s@.subrange(a as int, i as int).push(
                s@[i as int],
            ));
        }
        i += 1;
    }
    r
}

fn scan_pipe(s: &Vec<char>, from: usize) -> (r: usize)
    ensures
        r as int == find_pipe(s@, from as int),
        r <= s@.len(),
        from <= r || r == s@.len(),
    decreases s@.len() - from,
{
    let n = s.len();
    if from >= n {
        return n;
    }
    if s[from] == '|' {
        return from;
    }
    scan_pipe(s, from + 1)
}

fn scan_first_nonspace(s: &Vec<char>, from: usize) -> (r: usize)
    ensures
        r as int == first_nonspace(s@, from as int),
        r <= s@.len(),
        from <= r || r == s@.len(),
    decreases s@.len() - from,
{
    let n = s.len();
    if from >= n {
        return n;
    }
    let c = s[from];
    if c == ' ' || c == '\t' || c == '\n' || c == '\r' {
        scan_first_nonspace(s, from + 1)
    } else {
        from
    }
}

fn scan_end_nonspace(s: &Vec<char>, upto: usize) -> (r: usize)
    requires
        upto <= s@.len(),
    ensures
        r as int == end_nonspace(s@, upto as int),
        r <= upto,
    decreases upto,
{
    if upto == 0 {
        return 0;
    }
    let c = s[upto - 1];
    if c == ' ' || c == '\t' || c == '\n' || c == '\r' {
        scan_end_nonspace(s, upto - 1)
    } else {
        upto
    }
}

/// Reads the trimmed tail of `publish r` as a decimal id.
fn parse_id(rest: &Vec<char>) -> (r: Result<usize, UserInputError>)
    ensures
        r matches Ok(id) ==> all_digits(trimmed(rest@)) && digits_val(trimmed(rest@)) == id as nat,
        r is Err ==> !(all_digits(trimmed(rest@)) && digits_val(trimmed(rest@)) <= usize::MAX
            as nat),
        r matches Err(e) ==> e == UserInputError::InvalidId,
{
    let n = rest.len();
    let a = scan_first_nonspace(rest, 0);
    let b = scan_end_nonspace(rest, n);
    if a >= b {
        proof {
            assert(trimmed(rest@).len() == 0);
        }
        return Err(UserInputError::InvalidId);
    }
    let ghost t = trimmed(rest@);
    proof {
        assert(t == rest@.subrange(a as int, b as int));
    }
    let mut acc: usize = 0;
    let mut k: usize = a;
    while k < b
        invariant
            a <= k <= b <= n == rest@.len(),
            t == trimmed(rest@),
            t == rest@.subrange(a as int, b as int),
            forall|j: int| a <= j < k ==> is_digit(#[trigger] rest@[j]),
            acc as nat == digits_val(rest@.subrange(a as int, k as int)),
        decreases b - k,
    {
        let c = rest[k];
        if c < '0' || c > '9' {
            proof {
                assert(t[k - a] == rest@[k as int]);
                assert(!is_digit(t[k - a]));
                assert(!all_digits(t));
            }
            return Err(UserInputError::InvalidId);
        }
        let d = (c as u32 - 0x30) as usize;
        proof {
            assert(rest@.subrange(a as int, k as int + 1).drop_last() =~= rest@.subrange(
                a as int,
                k as int,
            ));
            assert(rest@.subrange(a as int, k as int + 1).last() == rest@[k as int]);
            assert(digits_val(rest@.subrange(a as int, k as int + 1)) == (acc as nat) * 10
                + digit_val(rest@[k as int]));
            assert(digit_val(rest@[k as int]) == d as nat);
        }
        let step = match acc.checked_mul(10) {
            Some(x) => x,
            None => {
                proof {
                    assert((acc as nat) * 10 > usize::MAX as nat);
                    lemma_digits_val_extend(rest@, a as int, k as int + 1, b as int);
                    assert(digits_val(t) > usize::MAX as nat);
                }
                return Err(UserInputError::InvalidId);
            },
        };
        acc = match step.checked_add(d) {
            Some(x) => x,
            None => {
                proof {
                    assert((step as nat) + (d as nat) > usize::MAX as nat);
                    lemma_digits_val_extend(rest@, a as int, k as int + 1, b as int);
                    assert(digits_val(t) > usize::MAX as nat);
                }
                return Err(UserInputError::InvalidId);
            },
        };
        k += 1;
    }
    proof {
        assert forall|j: int| 0 <= j < t.len() implies is_digit(#[trigger] t[j]) by {
            assert(t[j] == rest@[a + j]);
        }
    }
    Ok(acc)
}

/// Maps one operator input line to a command, exactly as
/// [`spec_parse_command`] describes.
pub fn parse_command(line: &str) -> (r: Result<Command, UserInputError>)
    ensures
        r matches Ok(c) ==> spec_parse_command(line@) == Ok::<CommandView, UserInputError>(c@),
        r matches Err(e) ==> spec_parse_command(line@) == Err::<CommandView, UserInputError>(e),
{
    let cs = chars_of(line);
    let n = cs.len();
    if equals_str(&cs, "ls p") {
        return Ok(Command::ListPeers);
    }
    if has_prefix(&cs, "ls r") {
        if has_prefix(&cs, "ls r ") {
            proof {
                reveal_strlit("ls r ");
            }
            let rest = tail_chars(&cs, 5);
            if equals_str(&rest, "all") {
                return Ok(Command::RequestAll);
            }
            let peer = string_range(&rest, 0, rest.len());
            proof {
                assert(rest@.subrange(0, rest@.len() as int) =~= rest@);
            }
            return Ok(Command::RequestOne(peer));
        }
        return Ok(Command::ListLocal);
    }
    if has_prefix(&cs, "create r") {
        proof {
            reveal_strlit("create r");
        }
        let rest = tail_chars(&cs, 8);
        let nr = rest.len();
        let p1 = scan_pipe(&rest, 0);
        let p2 = if p1 >= nr {
            scan_pipe(&rest, nr)
        } else {
            scan_pipe(&rest, p1 + 1)
        };
        proof {
            if p1 >= nr {
                assert(p1 == nr);
                assert(find_pipe(rest@, p1 as int + 1) == nr);
            }
        }
        if p2 >= nr {
            return Err(UserInputError::TooFewFields);
        }
        let p3 = scan_pipe(&rest, p2 + 1);
        let name = string_range(&rest, 0, p1);
        let ingredients = string_range(&rest, p1 + 1, p2);
        let instructions = string_range(&rest, p2 + 1, p3);
        return Ok(Command::Create { name, ingredients, instructions });
    }
    if has_prefix(&cs, "publish r") {
        proof {
            reveal_strlit("publish r");
        }
        let rest = tail_chars(&cs, 9);
        return match parse_id(&rest) {
            Ok(id) => Ok(Command::Publish(id)),
            Err(e) => Err(e),
        };
    }
    Err(UserInputError::UnknownCommand)
}

} // verus!
