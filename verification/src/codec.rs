//! The canonical wire codec.
//!
//! Payloads on the broadcast topic and the persisted store file carry the
//! same canonical serialized form: objects with the fields of the data
//! model, written without extra whitespace, with the field names verbatim,
//! strings escaped as below, and ids in canonical decimal.  `decode`
//! recognizes exactly this canonical form and yields `Unrecognized` for
//! anything else, which the protocol silently drops.
//!
//! The encoding of every value is defined by the `*_json` specification
//! functions; the parsing functions `p_*` define the grammar.  The lemmas
//! in [`crate::codec_laws`] relate the two: encoding then decoding gives
//! the value back.

use vstd::prelude::*;
use vstd::string::StrSliceExecFns;
use vstd::string::StringExecFns;

use crate::types::ListMode;
use crate::types::ListModeView;
use crate::types::ListRequest;
use crate::types::ListRequestView;
use crate::types::ListResponse;
use crate::types::ListResponseView;
use crate::types::Recipe;
use crate::types::RecipeView;

verus! {

// ---------------------------------------------------------------------------
// Literal fragments of the canonical form.
// ---------------------------------------------------------------------------
pub open spec fn lit_obj_id() -> Seq<char> {
    "{\"id\":"@
}

pub open spec fn lit_name() -> Seq<char> {
    ",\"name\":"@
}

pub open spec fn lit_ingredients() -> Seq<char> {
    ",\"ingredients\":"@
}

pub open spec fn lit_instructions() -> Seq<char> {
    ",\"instructions\":"@
}

pub open spec fn lit_public() -> Seq<char> {
    ",\"public\":"@
}

pub open spec fn lit_mode() -> Seq<char> {
    "{\"mode\":"@
}

pub open spec fn lit_data() -> Seq<char> {
    ",\"data\":"@
}

pub open spec fn lit_receiver() -> Seq<char> {
    ",\"receiver\":"@
}

pub open spec fn lit_all() -> Seq<char> {
    "\"ALL\""@
}

pub open spec fn lit_one() -> Seq<char> {
    "{\"One\":"@
}

pub open spec fn lit_true() -> Seq<char> {
    "true"@
}

pub open spec fn lit_false() -> Seq<char> {
    "false"@
}

pub open spec fn lit_close() -> Seq<char> {
    "}"@
}

// ---------------------------------------------------------------------------
// The encoding, as mathematics.
// ---------------------------------------------------------------------------
/// The lowercase hexadecimal digit for `v`.
pub open spec fn hex_char(v: nat) -> char {
    if v == 0 {
        '0'
    } else if v == 1 {
        '1'
    } else if v == 2 {
        '2'
    } else if v == 3 {
        '3'
    } else if v == 4 {
        '4'
    } else if v == 5 {
        '5'
    } else if v == 6 {
        '6'
    } else if v == 7 {
        '7'
    } else if v == 8 {
        '8'
    } else if v == 9 {
        '9'
    } else if v == 10 {
        'a'
    } else if v == 11 {
        'b'
    } else if v == 12 {
        'c'
    } else if v == 13 {
        'd'
    } else if v == 14 {
        'e'
    } else {
        'f'
    }
}

/// The character with code point `v` (meaningful for `v < 256`).
pub open spec fn ctl_char(v: nat) -> char {
    ((v as u8) as char)
}

/// Canonical decimal notation of `n`, most significant digit first, no
/// leading zeros (`0` itself is the single digit `0`).
pub open spec fn decimal(n: nat) -> Seq<char>
    decreases n,
{
    if n < 10 {
        seq![hex_char(n)]
    } else {
        decimal(n / 10) + seq![hex_char(n % 10)]
    }
}

/// How one character appears inside a quoted string: quote and backslash
/// get a backslash escape, the named control characters their short forms,
/// the remaining control characters a `\u00` escape in lowercase hex, and
/// every other character stands for itself.
pub open spec fn json_escape_char(c: char) -> Seq<char> {
    if c == '"' {
        seq!['\\', '"']
    } else if c == '\\' {
        seq!['\\', '\\']
    } else if c == '\u{8}' {
        seq!['\\', 'b']
    } else if c == '\u{9}' {
        seq!['\\', 't']
    } else if c == '\u{A}' {
        seq!['\\', 'n']
    } else if c == '\u{C}' {
        seq!['\\', 'f']
    } else if c == '\u{D}' {
        seq!['\\', 'r']
    } else if (c as u32) < 0x20 {
        seq!['\\', 'u', '0', '0', hex_char(((c as u32) / 16) as nat), hex_char(
            ((c as u32) % 16) as nat,
        )]
    } else {
        seq![c]
    }
}

/// The body of a quoted string: each character escaped in turn.
pub open spec fn json_escape(s: Seq<char>) -> Seq<char>
    decreases s.len(),
{
    if s.len() == 0 {
        Seq::empty()
    } else {
        json_escape_char(s[0]) + json_escape(s.drop_first())
    }
}

/// A quoted, escaped string.
pub open spec fn json_string(s: Seq<char>) -> Seq<char> {
    seq!['"'] + json_escape(s) + seq!['"']
}

pub open spec fn bool_json(b: bool) -> Seq<char> {
    if b {
        lit_true()
    } else {
        lit_false()
    }
}

/// One recipe object, fields in declaration order.
pub open spec fn recipe_json(r: RecipeView) -> Seq<char> {
    lit_obj_id() + decimal(r.id) + lit_name() + json_string(r.name) + lit_ingredients()
        + json_string(r.ingredients) + lit_instructions() + json_string(r.instructions)
        + lit_public() + bool_json(r.public) + lit_close()
}

/// The items of a recipe array after the first: `,` before each.
pub open spec fn recipes_rest(rs: Seq<RecipeView>) -> Seq<char>
    decreases rs.len(),
{
    if rs.len() == 0 {
        Seq::empty()
    } else {
        seq![','] + recipe_json(rs[0]) + recipes_rest(rs.drop_first())
    }
}

/// The comma-separated items of a recipe array.
pub open spec fn recipes_items(rs: Seq<RecipeView>) -> Seq<char> {
    if rs.len() == 0 {
        Seq::empty()
    } else {
        recipe_json(rs[0]) + recipes_rest(rs.drop_first())
    }
}

/// A recipe array: the persisted collection, and the `data` field.
pub open spec fn recipes_json(rs: Seq<RecipeView>) -> Seq<char> {
    seq!['['] + recipes_items(rs) + seq![']']
}

/// A list mode: the bare string `"ALL"`, or a one-field `One` object.
pub open spec fn mode_json(m: ListModeView) -> Seq<char> {
    match m {
        ListModeView::All => lit_all(),
        ListModeView::One(peer) => lit_one() + json_string(peer) + lit_close(),
    }
}

/// A whole `ListRequest` payload.
pub open spec fn request_json(q: ListRequestView) -> Seq<char> {
    lit_mode() + mode_json(q.mode) + lit_close()
}

/// A whole `ListResponse` payload.
pub open spec fn response_json(p: ListResponseView) -> Seq<char> {
    lit_mode() + mode_json(p.mode) + lit_data() + recipes_json(p.data) + lit_receiver()
        + json_string(p.receiver) + lit_close()
}

// ---------------------------------------------------------------------------
// The encoder.
// ---------------------------------------------------------------------------
/// Relies on `String::push`: appends the given character to the string.
#[verifier::external_body]
pub(crate) fn push_char(out: &mut String, c: char)
    ensures
        final(out)@ == old(out)@.push(c),
{
    out.push(c);
}

fn hex_digit(v: u8) -> (c: char)
    requires
        v < 16,
    ensures
        c == hex_char(v as nat),
{
    match v {
        0 => '0',
        1 => '1',
        2 => '2',
        3 => '3',
        4 => '4',
        5 => '5',
        6 => '6',
        7 => '7',
        8 => '8',
        9 => '9',
        10 => 'a',
        11 => 'b',
        12 => 'c',
        13 => 'd',
        14 => 'e',
        _ => 'f',
    }
}

fn push_decimal(out: &mut String, n: usize)
    ensures
        final(out)@ == old(out)@ + decimal(n as nat),
    decreases n,
{
    if n >= 10 {
        push_decimal(out, n / 10);
    }
    push_char(out, hex_digit((n % 10) as u8));
    proof {
        assert(out@ =~= old(out)@ + decimal(n as nat));
    }
}

/// `json_escape` distributes over appending one character.
proof fn lemma_escape_push(s: Seq<char>, c: char)
    ensures
        json_escape(s.push(c)) == json_escape(s) + json_escape_char(c),
    decreases s.len(),
{
    if s.len() == 0 {
        reveal_with_fuel(json_escape, 2);
        assert(s.push(c)[0] == c);
        assert(s.push(c).drop_first() =~= Seq::<char>::empty());
        assert(json_escape(s.push(c)) =~= json_escape(s) + json_escape_char(c));
    } else {
        lemma_escape_push(s.drop_first(), c);
        assert(s.push(c).drop_first() =~= s.drop_first().push(c));
        assert(s.push(c)[0] == s[0]);
        assert(json_escape(s.push(c)) == json_escape_char(s[0]) + json_escape(
            s.drop_first().push(c),
        ));
        assert(json_escape(s.push(c)) == json_escape_char(s[0]) + (json_escape(s.drop_first())
            + json_escape_char(c)));
        assert(json_escape(s) == json_escape_char(s[0]) + json_escape(s.drop_first()));
        assert(json_escape_char(s[0]) + (json_escape(s.drop_first()) + json_escape_char(c)) =~= (
        json_escape_char(s[0]) + json_escape(s.drop_first())) + json_escape_char(c));
    }
}

fn push_char_escape(out: &mut String, c: char)
    ensures
        final(out)@ == old(out)@ + json_escape_char(c),
{
    if c == '"' {
        push_char(out, '\\');
        push_char(out, '"');
    } else if c == '\\' {
        push_char(out, '\\');
        push_char(out, '\\');
    } else if c == '\u{8}' {
        push_char(out, '\\');
        push_char(out, 'b');
    } else if c == '\u{9}' {
        push_char(out, '\\');
        push_char(out, 't');
    } else if c == '\u{A}' {
        push_char(out, '\\');
        push_char(out, 'n');
    } else if c == '\u{C}' {
        push_char(out, '\\');
        push_char(out, 'f');
    } else if c == '\u{D}' {
        push_char(out, '\\');
        push_char(out, 'r');
    } else {
        let v = c as u32;
        if v < 0x20 {
            push_char(out, '\\');
            push_char(out, 'u');
            push_char(out, '0');
            push_char(out, '0');
            push_char(out, hex_digit((v / 16) as u8));
            push_char(out, hex_digit((v % 16) as u8));
        } else {
            push_char(out, c);
        }
    }
    proof {
        assert(out@ =~= old(out)@ + json_escape_char(c));
    }
}

fn push_json_string(out: &mut String, s: &str)
    ensures
        final(out)@ == old(out)@ + json_string(s@),
{
    push_char(out, '"');
    let n = s.unicode_len();
    let mut i: usize = 0;
    while i < n
        invariant
            n == s@.len(),
            i <= n,
            out@ == old(out)@.push('"') + json_escape(s@.subrange(0, i as int)),
        decreases n - i,
    {
        let c = s.get_char(i);
        push_char_escape(out, c);
        proof {
            lemma_escape_push(s@.subrange(0, i as int), c);
            assert(s@.subrange(0, i as int + 1) =~= s@.subrange(0, i as int).push(s@[i as int]));
        }
        i += 1;
    }
    push_char(out, '"');
    proof {
        assert(s@.subrange(0, n as int) =~= s@);
        assert(out@ =~= old(out)@ + json_string(s@));
    }
}

fn push_recipe(out: &mut String, r: &Recipe)
    ensures
        final(out)@ == old(out)@ + recipe_json(r@),
{
    out.append("{\"id\":");
    push_decimal(out, r.id);
    out.append(",\"name\":");
    push_json_string(out, r.name.as_str());
    out.append(",\"ingredients\":");
    push_json_string(out, r.ingredients.as_str());
    out.append(",\"instructions\":");
    push_json_string(out, r.instructions.as_str());
    out.append(",\"public\":");
    if r.public {
        out.append("true");
    } else {
        out.append("false");
    }
    out.append("}");
    proof {
        assert(out@ =~= old(out)@ + recipe_json(r@));
    }
}

/// `recipes_rest` distributes over appending one recipe.
proof fn lemma_rest_push(rs: Seq<RecipeView>, r: RecipeView)
    ensures
        recipes_rest(rs.push(r)) == recipes_rest(rs) + seq![','] + recipe_json(r),
    decreases rs.len(),
{
    if rs.len() == 0 {
        reveal_with_fuel(recipes_rest, 2);
        assert(rs.push(r)[0] == r);
        assert(rs.push(r).drop_first() =~= Seq::<RecipeView>::empty());
        assert(recipes_rest(rs.push(r)) =~= recipes_rest(rs) + seq![','] + recipe_json(r));
    } else {
        lemma_rest_push(rs.drop_first(), r);
        assert(rs.push(r).drop_first() =~= rs.drop_first().push(r));
        assert(rs.push(r)[0] == rs[0]);
        assert(recipes_rest(rs.push(r)) == seq![','] + recipe_json(rs[0]) + recipes_rest(
            rs.drop_first().push(r),
        ));
        assert(recipes_rest(rs) == seq![','] + recipe_json(rs[0]) + recipes_rest(rs.drop_first()));
        assert(seq![','] + recipe_json(rs[0]) + (recipes_rest(rs.drop_first()) + seq![',']
            + recipe_json(r)) =~= (seq![','] + recipe_json(rs[0]) + recipes_rest(rs.drop_first()))
            + seq![','] + recipe_json(r));
    }
}

/// `recipes_items` distributes over appending one recipe.
proof fn lemma_items_push(rs: Seq<RecipeView>, r: RecipeView)
    ensures
        rs.len() == 0 ==> recipes_items(rs.push(r)) == recipe_json(r),
        rs.len() > 0 ==> recipes_items(rs.push(r)) == recipes_items(rs) + seq![','] + recipe_json(
            r,
        ),
{
    if rs.len() == 0 {
        reveal_with_fuel(recipes_rest, 2);
        assert(rs.push(r)[0] == r);
        assert(rs.push(r).drop_first() =~= Seq::<RecipeView>::empty());
        assert(recipes_items(rs.push(r)) =~= recipe_json(r));
    } else {
        lemma_rest_push(rs.drop_first(), r);
        assert(rs.push(r).drop_first() =~= rs.drop_first().push(r));
        assert(rs.push(r)[0] == rs[0]);
        assert(recipes_items(rs.push(r)) =~= recipes_items(rs) + seq![','] + recipe_json(r));
    }
}

fn push_recipes(out: &mut String, rs: &Vec<Recipe>)
    ensures
        final(out)@ == old(out)@ + recipes_json(rs.deep_view()),
{
    push_char(out, '[');
    let n = rs.len();
    let mut i: usize = 0;
    while i < n
        invariant
            n == rs@.len(),
            rs.deep_view().len() == n,
            i <= n,
            forall|k: int| 0 <= k < n ==> rs.deep_view()[k] == #[trigger] rs@[k]@,
            out@ == old(out)@.push('[') + recipes_items(rs.deep_view().subrange(0, i as int)),
        decreases n - i,
    {
        if i > 0 {
            push_char(out, ',');
        }
        let item = &rs[i];
        push_recipe(out, item);
        proof {
            let pre = rs.deep_view().subrange(0, i as int);
            lemma_items_push(pre, rs@[i as int]@);
            assert(rs.deep_view().subrange(0, i as int + 1) =~= pre.push(rs@[i as int]@));
            assert(out@ =~= old(out)@.push('[') + recipes_items(
                rs.deep_view().subrange(0, i as int + 1),
            ));
        }
        i += 1;
    }
    push_char(out, ']');
    proof {
        assert(rs.deep_view().subrange(0, n as int) =~= rs.deep_view());
        assert(out@ =~= old(out)@ + recipes_json(rs.deep_view()));
    }
}

fn push_mode(out: &mut String, m: &ListMode)
    ensures
        final(out)@ == old(out)@ + mode_json(m@),
{
    match m {
        ListMode::All => {
            out.append("\"ALL\"");
        },
        ListMode::One(peer) => {
            out.append("{\"One\":");
            push_json_string(out, peer.as_str());
            out.append("}");
            proof {
                assert(out@ =~= old(out)@ + mode_json(m@));
            }
        },
    }
}

/// Serializes a request to its canonical wire form.
pub fn encode_request(q: &ListRequest) -> (out: String)
    ensures
        out@ == request_json(q@),
{
    let mut out = String::new();
    out.append("{\"mode\":");
    push_mode(&mut out, &q.mode);
    out.append("}");
    proof {
        assert(out@ =~= request_json(q@));
    }
    out
}

/// Serializes a response to its canonical wire form.
pub fn encode_response(p: &ListResponse) -> (out: String)
    ensures
        out@ == response_json(p@),
{
    let mut out = String::new();
    out.append("{\"mode\":");
    push_mode(&mut out, &p.mode);
    out.append(",\"data\":");
    push_recipes(&mut out, &p.data);
    out.append(",\"receiver\":");
    push_json_string(&mut out, p.receiver.as_str());
    out.append("}");
    proof {
        assert(out@ =~= response_json(p@));
    }
    out
}

// ---------------------------------------------------------------------------
// The grammar, as mathematics: each `p_*` consumes from index `i` and
// yields the parsed value with the index just past it, or `None`.
// ---------------------------------------------------------------------------
pub open spec fn is_digit(c: char) -> bool {
    '0' <= c && c <= '9'
}

pub open spec fn digit_val(c: char) -> nat {
    ((c as u32) - 0x30) as nat
}

pub open spec fn is_hex_lower(c: char) -> bool {
    is_digit(c) || ('a' <= c && c <= 'f')
}

pub open spec fn hex_val(c: char) -> nat {
    if is_digit(c) {
        digit_val(c)
    } else {
        ((c as u32) - 0x57) as nat
    }
}

/// The fixed text `l`, exactly.
pub open spec fn p_lit(s: Seq<char>, i: int, l: Seq<char>) -> Option<int> {
    if 0 <= i && i + l.len() <= s.len() && s.subrange(i, i + l.len() as int) == l {
        Some(i + l.len() as int)
    } else {
        None
    }
}

/// The index just past the run of decimal digits starting at `i`.
pub open spec fn digits_end(s: Seq<char>, i: int) -> int
    decreases s.len() - i,
{
    if 0 <= i < s.len() && is_digit(s[i]) {
        digits_end(s, i + 1)
    } else {
        i
    }
}

/// The value of a digit string, most significant first.
pub open spec fn digits_val(d: Seq<char>) -> nat
    decreases d.len(),
{
    if d.len() == 0 {
        0
    } else {
        digits_val(d.drop_last()) * 10 + digit_val(d.last())
    }
}

/// A canonical decimal number fitting `usize`: at least one digit, no
/// leading zero unless the number is `0` itself.
pub open spec fn p_number(s: Seq<char>, i: int) -> Option<(usize, int)> {
    let j = digits_end(s, i);
    if j == i {
        None
    } else if s[i] == '0' && j > i + 1 {
        None
    } else {
        let v = digits_val(s.subrange(i, j));
        if v <= usize::MAX as nat {
            Some((v as usize, j))
        } else {
            None
        }
    }
}

/// One character of a string body: an escape, or a plain character other
/// than the quote, the backslash and the controls.
pub open spec fn p_escchar(s: Seq<char>, i: int) -> Option<(char, int)> {
    if !(0 <= i < s.len()) {
        None
    } else if s[i] == '\\' {
        if i + 1 >= s.len() {
            None
        } else {
            let e = s[i + 1];
            if e == '"' {
                Some(('"', i + 2))
            } else if e == '\\' {
                Some(('\\', i + 2))
            } else if e == 'b' {
                Some(('\u{8}', i + 2))
            } else if e == 't' {
                Some(('\u{9}', i + 2))
            } else if e == 'n' {
                Some(('\u{A}', i + 2))
            } else if e == 'f' {
                Some(('\u{C}', i + 2))
            } else if e == 'r' {
                Some(('\u{D}', i + 2))
            } else if e == 'u' {
                if i + 6 <= s.len() && s[i + 2] == '0' && s[i + 3] == '0' && (s[i + 4] == '0' || s[i
                    + 4] == '1') && is_hex_lower(s[i + 5]) {
                    let v = hex_val(s[i + 4]) * 16 + hex_val(s[i + 5]);
                    if v != 8 && v != 9 && v != 0xA && v != 0xC && v != 0xD {
                        Some((ctl_char(v), i + 6))
                    } else {
                        None
                    }
                } else {
                    None
                }
            } else {
                None
            }
        }
    } else if s[i] == '"' {
        None
    } else if (s[i] as u32) < 0x20 {
        None
    } else {
        Some((s[i], i + 1))
    }
}

/// The rest of a string body up to and including the closing quote, with
/// the characters read so far in `acc`.
pub open spec fn p_strbody(s: Seq<char>, i: int, acc: Seq<char>) -> Option<(Seq<char>, int)>
    decreases s.len() - i,
{
    if i >= s.len() {
        None
    } else if s[i] == '"' {
        Some((acc, i + 1))
    } else {
        match p_escchar(s, i) {
            None => None,
            Some((c, j)) => if i < j <= s.len() {
                p_strbody(s, j, acc.push(c))
            } else {
                None
            },
        }
    }
}

/// A quoted string.
pub open spec fn p_qstring(s: Seq<char>, i: int) -> Option<(Seq<char>, int)> {
    if 0 <= i < s.len() && s[i] == '"' {
        p_strbody(s, i + 1, Seq::empty())
    } else {
        None
    }
}

pub open spec fn p_bool(s: Seq<char>, i: int) -> Option<(bool, int)> {
    match p_lit(s, i, lit_true()) {
        Some(j) => Some((true, j)),
        None => match p_lit(s, i, lit_false()) {
            Some(j) => Some((false, j)),
            None => None,
        },
    }
}

/// One recipe object.
pub open spec fn p_recipe(s: Seq<char>, i: int) -> Option<(RecipeView, int)> {
    match p_lit(s, i, lit_obj_id()) {
        None => None,
        Some(i1) => match p_number(s, i1) {
            None => None,
            Some((id, i2)) => match p_lit(s, i2, lit_name()) {
                None => None,
                Some(i3) => match p_qstring(s, i3) {
                    None => None,
                    Some((name, i4)) => match p_lit(s, i4, lit_ingredients()) {
                        None => None,
                        Some(i5) => match p_qstring(s, i5) {
                            None => None,
                            Some((ingredients, i6)) => match p_lit(s, i6, lit_instructions()) {
                                None => None,
                                Some(i7) => match p_qstring(s, i7) {
                                    None => None,
                                    Some((instructions, i8)) => match p_lit(s, i8, lit_public()) {
                                        None => None,
                                        Some(i9) => match p_bool(s, i9) {
                                            None => None,
                                            Some((public, i10)) => match p_lit(
                                                s,
                                                i10,
                                                lit_close(),
                                            ) {
                                                None => None,
                                                Some(i11) => Some(
                                                    (
                                                        RecipeView {
                                                            id: id as nat,
                                                            name,
                                                            ingredients,
                                                            instructions,
                                                            public,
                                                        },
                                                        i11,
                                                    ),
                                                ),
                                            },
                                        },
                                    },
                                },
                            },
                        },
                    },
                },
            },
        },
    }
}

/// The rest of a recipe array: `,` and an item, repeated, then `]`.
pub open spec fn p_rlist_rest(s: Seq<char>, i: int, acc: Seq<RecipeView>) -> Option<
    (Seq<RecipeView>, int),
>
    decreases s.len() - i,
{
    if i >= s.len() {
        None
    } else if s[i] == ']' {
        Some((acc, i + 1))
    } else if s[i] == ',' {
        match p_recipe(s, i + 1) {
            None => None,
            Some((r, j)) => if i < j <= s.len() {
                p_rlist_rest(s, j, acc.push(r))
            } else {
                None
            },
        }
    } else {
        None
    }
}

/// A recipe array.
pub open spec fn p_recipes(s: Seq<char>, i: int) -> Option<(Seq<RecipeView>, int)> {
    if !(0 <= i < s.len() && s[i] == '[') {
        None
    } else if i + 1 < s.len() && s[i + 1] == ']' {
        Some((Seq::empty(), i + 2))
    } else {
        match p_recipe(s, i + 1) {
            None => None,
            Some((r, j)) => if i < j <= s.len() {
                p_rlist_rest(s, j, seq![r])
            } else {
                None
            },
        }
    }
}

/// A list mode.
pub open spec fn p_mode(s: Seq<char>, i: int) -> Option<(ListModeView, int)> {
    match p_lit(s, i, lit_all()) {
        Some(j) => Some((ListModeView::All, j)),
        None => match p_lit(s, i, lit_one()) {
            None => None,
            Some(i1) => match p_qstring(s, i1) {
                None => None,
                Some((peer, i2)) => match p_lit(s, i2, lit_close()) {
                    None => None,
                    Some(i3) => Some((ListModeView::One(peer), i3)),
                },
            },
        },
    }
}

/// A whole request payload.
pub open spec fn p_request(s: Seq<char>, i: int) -> Option<(ListRequestView, int)> {
    match p_lit(s, i, lit_mode()) {
        None => None,
        Some(i1) => match p_mode(s, i1) {
            None => None,
            Some((mode, i2)) => match p_lit(s, i2, lit_close()) {
                None => None,
                Some(i3) => Some((ListRequestView { mode }, i3)),
            },
        },
    }
}

/// A whole response payload.
pub open spec fn p_response(s: Seq<char>, i: int) -> Option<(ListResponseView, int)> {
    match p_lit(s, i, lit_mode()) {
        None => None,
        Some(i1) => match p_mode(s, i1) {
            None => None,
            Some((mode, i2)) => match p_lit(s, i2, lit_data()) {
                None => None,
                Some(i3) => match p_recipes(s, i3) {
                    None => None,
                    Some((data, i4)) => match p_lit(s, i4, lit_receiver()) {
                        None => None,
                        Some(i5) => match p_qstring(s, i5) {
                            None => None,
                            Some((receiver, i6)) => match p_lit(s, i6, lit_close()) {
                                None => None,
                                Some(i7) => Some((ListResponseView { mode, data, receiver }, i7)),
                            },
                        },
                    },
                },
            },
        },
    }
}

/// What a whole payload decodes to: a response if the entire text is one,
/// else a request if the entire text is one, else `Unrecognized`.
pub open spec fn spec_decode(s: Seq<char>) -> crate::types::DecodedView {
    match p_response(s, 0) {
        Some(rj) => if rj.1 == s.len() {
            crate::types::DecodedView::Response(rj.0)
        } else {
            spec_decode_request(s)
        },
        None => spec_decode_request(s),
    }
}

pub open spec fn spec_decode_request(s: Seq<char>) -> crate::types::DecodedView {
    match p_request(s, 0) {
        Some(qj) => if qj.1 == s.len() {
            crate::types::DecodedView::Request(qj.0)
        } else {
            crate::types::DecodedView::Unrecognized
        },
        None => crate::types::DecodedView::Unrecognized,
    }
}

/// What the persisted collection file decodes to.
pub open spec fn spec_decode_recipes(s: Seq<char>) -> Option<Seq<RecipeView>> {
    match p_recipes(s, 0) {
        Some(vj) => if vj.1 == s.len() {
            Some(vj.0)
        } else {
            None
        },
        None => None,
    }
}

/// Serializes the whole collection, the unit of persistence.
pub fn encode_recipes(rs: &Vec<Recipe>) -> (out: String)
    ensures
        out@ == recipes_json(rs.deep_view()),
{
    let mut out = String::new();
    push_recipes(&mut out, rs);
    proof {
        assert(out@ =~= recipes_json(rs.deep_view()));
    }
    out
}

// ---------------------------------------------------------------------------
// The parser.  Each function mirrors its `p_*` specification exactly.
// ---------------------------------------------------------------------------
/// The characters of `s`, as a vector.
pub(crate) fn chars_of(s: &str) -> (r: Vec<char>)
    ensures
        r@ == s@,
{
    let n = s.unicode_len();
    let mut r: Vec<char> = Vec::new();
    let mut i: usize = 0;
    while i < n
        invariant
            n == s@.len(),
            i <= n,
            r@ == s@.subrange(0, i as int),
        decreases n - i,
    {
        r.push(s.get_char(i));
        proof {
            assert(s@.subrange(0, i as int + 1) =~= s@.subrange(0, i as int).push(s@[i as int]));
        }
        i += 1;
    }
    proof {
        assert(s@.subrange(0, n as int) =~= s@);
    }
    r
}

fn parse_lit(s: &Vec<char>, i: usize, pat: &str) -> (r: Option<usize>)
    ensures
        r is None ==> p_lit(s@, i as int, pat@) is None,
        r matches Some(j) ==> p_lit(s@, i as int, pat@) == Some(j as int) && i <= j <= s@.len(),
{
    let m = pat.unicode_len();
    let n = s.len();
    if i > n || m > n - i {
        return None;
    }
    let mut k: usize = 0;
    while k < m
        invariant
            i + m <= n,
            n == s@.len(),
            m == pat@.len(),
            k <= m,
            forall|t: int| 0 <= t < k ==> s@[i + t] == pat@[t],
        decreases m - k,
    {
        if s[i + k] != pat.get_char(k) {
            proof {
                let sub = s@.subrange(i as int, i as int + m as int);
                assert(sub[k as int] == s@[i + k]);
                assert(sub[k as int] != pat@[k as int]);
            }
            return None;
        }
        k += 1;
    }
    proof {
        assert(s@.subrange(i as int, i as int + m as int) =~= pat@);
    }
    Some(i + m)
}

/// `digits_end` is exactly the end of the run of digits.
pub(crate) proof fn lemma_digits_end_char(s: Seq<char>, i: int, j: int)
    requires
        0 <= i <= j <= s.len(),
        forall|t: int| i <= t < j ==> is_digit(#[trigger] s[t]),
        j == s.len() || !is_digit(s[j]),
    ensures
        digits_end(s, i) == j,
    decreases j - i,
{
    if i < j {
        lemma_digits_end_char(s, i + 1, j);
    }
}

/// Reading more digits never decreases the value.
pub(crate) proof fn lemma_digits_val_extend(s: Seq<char>, i: int, k: int, j: int)
    requires
        0 <= i <= k <= j <= s.len(),
    ensures
        digits_val(s.subrange(i, j)) >= digits_val(s.subrange(i, k)),
    decreases j - k,
{
    if k < j {
        assert(s.subrange(i, k + 1).drop_last() =~= s.subrange(i, k));
        assert(digits_val(s.subrange(i, k + 1)) >= digits_val(s.subrange(i, k)));
        lemma_digits_val_extend(s, i, k + 1, j);
    }
}

fn parse_number(s: &Vec<char>, i: usize) -> (r: Option<(usize, usize)>)
    ensures
        r is None ==> p_number(s@, i as int) is None,
        r matches Some(vj) ==> p_number(s@, i as int) == Some((vj.0, vj.1 as int)) && i < vj.1
            <= s@.len(),
{
    let n = s.len();
    if i >= n {
        return None;
    }
    if s[i] < '0' || s[i] > '9' {
        proof {
            lemma_digits_end_char(s@, i as int, i as int);
        }
        return None;
    }
    let mut j: usize = i;
    while j < n && '0' <= s[j] && s[j] <= '9'
        invariant
            n == s@.len(),
            i <= j <= n,
            forall|t: int| i <= t < j ==> is_digit(#[trigger] s@[t]),
        decreases n - j,
    {
        j += 1;
    }
    proof {
        lemma_digits_end_char(s@, i as int, j as int);
    }
    if s[i] == '0' && j > i + 1 {
        return None;
    }
    let mut acc: usize = 0;
    let mut k: usize = i;
    while k < j
        invariant
            n == s@.len(),
            i <= k <= j <= n,
            forall|t: int| i <= t < j ==> is_digit(#[trigger] s@[t]),
            digits_end(s@, i as int) == j,
            j == n || !is_digit(s@[j as int]),
            acc as nat == digits_val(s@.subrange(i as int, k as int)),
        decreases j - k,
    {
        let d = (s[k] as u32 - 0x30) as usize;
        proof {
            assert(s@.subrange(i as int, k as int + 1).drop_last() =~= s@.subrange(
                i as int,
                k as int,
            ));
            assert(s@.subrange(i as int, k as int + 1).last() == s@[k as int]);
        }
        let step = match acc.checked_mul(10) {
            Some(x) => x,
            None => {
                proof {
                    lemma_digits_val_extend(s@, i as int, k as int + 1, j as int);
                }
                return None;
            },
        };
        acc = match step.checked_add(d) {
            Some(x) => x,
            None => {
                proof {
                    lemma_digits_val_extend(s@, i as int, k as int + 1, j as int);
                }
                return None;
            },
        };
        k += 1;
    }
    Some((acc, j))
}

fn is_hex_lower_char(c: char) -> (b: bool)
    ensures
        b == is_hex_lower(c),
{
    ('0' <= c && c <= '9') || ('a' <= c && c <= 'f')
}

fn hex_value(c: char) -> (r: u32)
    requires
        is_hex_lower(c),
    ensures
        r as nat == hex_val(c),
        r < 16,
{
    if c <= '9' {
        c as u32 - 0x30
    } else {
        c as u32 - 0x57
    }
}

fn parse_escchar(s: &Vec<char>, i: usize) -> (r: Option<(char, usize)>)
    ensures
        r is None ==> p_escchar(s@, i as int) is None,
        r matches Some(cj) ==> p_escchar(s@, i as int) == Some((cj.0, cj.1 as int)) && i < cj.1
            <= s@.len(),
{
    let n = s.len();
    if i >= n {
        return None;
    }
    let c = s[i];
    if c == '\\' {
        if i + 1 >= n {
            return None;
        }
        let e = s[i + 1];
        if e == '"' {
            Some(('"', i + 2))
        } else if e == '\\' {
            Some(('\\', i + 2))
        } else if e == 'b' {
            Some(('\u{8}', i + 2))
        } else if e == 't' {
            Some(('\u{9}', i + 2))
        } else if e == 'n' {
            Some(('\u{A}', i + 2))
        } else if e == 'f' {
            Some(('\u{C}', i + 2))
        } else if e == 'r' {
            Some(('\u{D}', i + 2))
        } else if e == 'u' {
            if n - i >= 6 && s[i + 2] == '0' && s[i + 3] == '0' && (s[i + 4] == '0' || s[i + 4]
                == '1') && is_hex_lower_char(s[i + 5]) {
                let v: u32 = hex_value(s[i + 4]) * 16 + hex_value(s[i + 5]);
                if v != 8 && v != 9 && v != 0xA && v != 0xC && v != 0xD {
                    Some(((v as u8) as char, i + 6))
                } else {
                    None
                }
            } else {
                None
            }
        } else {
            None
        }
    } else if c == '"' {
        None
    } else if (c as u32) < 0x20 {
        None
    } else {
        Some((c, i + 1))
    }
}

fn parse_qstring(s: &Vec<char>, i: usize) -> (r: Option<(String, usize)>)
    ensures
        r is None ==> p_qstring(s@, i as int) is None,
        r matches Some(wj) ==> p_qstring(s@, i as int) == Some((wj.0@, wj.1 as int)) && i < wj.1
            <= s@.len(),
{
    let n = s.len();
    if i >= n || s[i] != '"' {
        return None;
    }
    let mut acc = String::new();
    let mut k: usize = i + 1;
    loop
        invariant
            n == s@.len(),
            i < n,
            s@[i as int] == '"',
            i + 1 <= k <= n,
            p_qstring(s@, i as int) == p_strbody(s@, k as int, acc@),
        decreases n - k,
    {
        if k >= n {
            return None;
        }
        let c = s[k];
        if c == '"' {
            return Some((acc, k + 1));
        }
        match parse_escchar(s, k) {
            None => {
                return None;
            },
            Some((c2, k2)) => {
                push_char(&mut acc, c2);
                k = k2;
            },
        }
    }
}

fn parse_bool(s: &Vec<char>, i: usize) -> (r: Option<(bool, usize)>)
    ensures
        r is None ==> p_bool(s@, i as int) is None,
        r matches Some(bj) ==> p_bool(s@, i as int) == Some((bj.0, bj.1 as int)) && i < bj.1
            <= s@.len(),
{
    proof {
        reveal_strlit("true");
        reveal_strlit("false");
    }
    if let Some(j) = parse_lit(s, i, "true") {
        return Some((true, j));
    }
    match parse_lit(s, i, "false") {
        Some(j) => Some((false, j)),
        None => None,
    }
}

fn parse_recipe(s: &Vec<char>, i: usize) -> (r: Option<(Recipe, usize)>)
    ensures
        r is None ==> p_recipe(s@, i as int) is None,
        r matches Some(rj) ==> p_recipe(s@, i as int) == Some((rj.0@, rj.1 as int)) && i < rj.1
            <= s@.len(),
{
    proof {
        reveal_strlit("{\"id\":");
    }
    let i1 = match parse_lit(s, i, "{\"id\":") {
        Some(j) => j,
        None => {
            return None;
        },
    };
    let (id, i2) = match parse_number(s, i1) {
        Some(x) => x,
        None => {
            return None;
        },
    };
    let i3 = match parse_lit(s, i2, ",\"name\":") {
        Some(j) => j,
        None => {
            return None;
        },
    };
    let (name, i4) = match parse_qstring(s, i3) {
        Some(x) => x,
        None => {
            return None;
        },
    };
    let i5 = match parse_lit(s, i4, ",\"ingredients\":") {
        Some(j) => j,
        None => {
            return None;
        },
    };
    let (ingredients, i6) = match parse_qstring(s, i5) {
        Some(x) => x,
        None => {
            return None;
        },
    };
    let i7 = match parse_lit(s, i6, ",\"instructions\":") {
        Some(j) => j,
        None => {
            return None;
        },
    };
    let (instructions, i8) = match parse_qstring(s, i7) {
        Some(x) => x,
        None => {
            return None;
        },
    };
    let i9 = match parse_lit(s, i8, ",\"public\":") {
        Some(j) => j,
        None => {
            return None;
        },
    };
    let (public, i10) = match parse_bool(s, i9) {
        Some(x) => x,
        None => {
            return None;
        },
    };
    let i11 = match parse_lit(s, i10, "}") {
        Some(j) => j,
        None => {
            return None;
        },
    };
    Some((Recipe { id, name, ingredients, instructions, public }, i11))
}

fn parse_recipes(s: &Vec<char>, i: usize) -> (r: Option<(Vec<Recipe>, usize)>)
    ensures
        r is None ==> p_recipes(s@, i as int) is None,
        r matches Some(vj) ==> p_recipes(s@, i as int) == Some((vj.0.deep_view(), vj.1 as int)) && i
            < vj.1 <= s@.len(),
{
    let n = s.len();
    if i >= n || s[i] != '[' {
        return None;
    }
    if i + 1 < n && s[i + 1] == ']' {
        let empty: Vec<Recipe> = Vec::new();
        proof {
            assert(empty.deep_view() =~= Seq::<RecipeView>::empty());
        }
        return Some((empty, i + 2));
    }
    let (first, j0) = match parse_recipe(s, i + 1) {
        Some(x) => x,
        None => {
            return None;
        },
    };
    let mut acc: Vec<Recipe> = Vec::new();
    proof {
        assert(acc.deep_view() =~= Seq::<RecipeView>::empty());
    }
    let ghost first_view = first@;
    acc.push(first);
    proof {
        assert(acc.deep_view() =~= seq![first_view]);
    }
    let mut k: usize = j0;
    loop
        invariant
            n == s@.len(),
            i < k <= n,
            p_recipes(s@, i as int) == p_rlist_rest(s@, k as int, acc.deep_view()),
        decreases n - k,
    {
        if k >= n {
            return None;
        }
        let c = s[k];
        if c == ']' {
            return Some((acc, k + 1));
        }
        if c != ',' {
            return None;
        }
        match parse_recipe(s, k + 1) {
            None => {
                return None;
            },
            Some((rec, k2)) => {
                let ghost before = acc.deep_view();
                let ghost rec_view = rec@;
                acc.push(rec);
                proof {
                    assert(acc.deep_view() =~= before.push(rec_view));
                }
                k = k2;
            },
        }
    }
}

fn parse_mode(s: &Vec<char>, i: usize) -> (r: Option<(ListMode, usize)>)
    ensures
        r is None ==> p_mode(s@, i as int) is None,
        r matches Some(mj) ==> p_mode(s@, i as int) == Some((mj.0@, mj.1 as int)) && i < mj.1
            <= s@.len(),
{
    proof {
        reveal_strlit("\"ALL\"");
        reveal_strlit("{\"One\":");
        reveal_strlit("}");
    }
    if let Some(j) = parse_lit(s, i, "\"ALL\"") {
        return Some((ListMode::All, j));
    }
    let i1 = match parse_lit(s, i, "{\"One\":") {
        Some(j) => j,
        None => {
            return None;
        },
    };
    let (peer, i2) = match parse_qstring(s, i1) {
        Some(x) => x,
        None => {
            return None;
        },
    };
    let i3 = match parse_lit(s, i2, "}") {
        Some(j) => j,
        None => {
            return None;
        },
    };
    Some((ListMode::One(peer), i3))
}

fn parse_request(s: &Vec<char>, i: usize) -> (r: Option<(ListRequest, usize)>)
    ensures
        r is None ==> p_request(s@, i as int) is None,
        r matches Some(qj) ==> p_request(s@, i as int) == Some((qj.0@, qj.1 as int)) && i < qj.1
            <= s@.len(),
{
    let i1 = match parse_lit(s, i, "{\"mode\":") {
        Some(j) => j,
        None => {
            return None;
        },
    };
    let (mode, i2) = match parse_mode(s, i1) {
        Some(x) => x,
        None => {
            return None;
        },
    };
    let i3 = match parse_lit(s, i2, "}") {
        Some(j) => j,
        None => {
            return None;
        },
    };
    Some((ListRequest { mode }, i3))
}

fn parse_response(s: &Vec<char>, i: usize) -> (r: Option<(ListResponse, usize)>)
    ensures
        r is None ==> p_response(s@, i as int) is None,
        r matches Some(pj) ==> p_response(s@, i as int) == Some((pj.0@, pj.1 as int)) && i < pj.1
            <= s@.len(),
{
    let i1 = match parse_lit(s, i, "{\"mode\":") {
        Some(j) => j,
        None => {
            return None;
        },
    };
    let (mode, i2) = match parse_mode(s, i1) {
        Some(x) => x,
        None => {
            return None;
        },
    };
    let i3 = match parse_lit(s, i2, ",\"data\":") {
        Some(j) => j,
        None => {
            return None;
        },
    };
    let (data, i4) = match parse_recipes(s, i3) {
        Some(x) => x,
        None => {
            return None;
        },
    };
    let i5 = match parse_lit(s, i4, ",\"receiver\":") {
        Some(j) => j,
        None => {
            return None;
        },
    };
    let (receiver, i6) = match parse_qstring(s, i5) {
        Some(x) => x,
        None => {
            return None;
        },
    };
    let i7 = match parse_lit(s, i6, "}") {
        Some(j) => j,
        None => {
            return None;
        },
    };
    Some((ListResponse { mode, data, receiver }, i7))
}

fn classify(s: &str) -> (r: crate::types::Decoded)
    ensures
        r@ == spec_decode(s@),
{
    let cs = chars_of(s);
    let n = cs.len();
    if let Some((resp, j)) = parse_response(&cs, 0) {
        if j == n {
            return crate::types::Decoded::Response(resp);
        }
    }
    if let Some((req, j)) = parse_request(&cs, 0) {
        if j == n {
            return crate::types::Decoded::Request(req);
        }
    }
    crate::types::Decoded::Unrecognized
}

/// Classifies one broadcast payload.  The whole text must be a canonical
/// response, else a canonical request, else it is `Unrecognized`;
/// responses are tried first, and the two forms cannot overlap.  The
/// classification is exact: a payload yields a value if and only if it is
/// that value's canonical encoding.
pub fn decode(s: &str) -> (r: crate::types::Decoded)
    ensures
        r@ == spec_decode(s@),
        r@ matches crate::types::DecodedView::Response(p) ==> s@ == response_json(p),
        r@ matches crate::types::DecodedView::Request(q) ==> s@ == request_json(q),
        forall|p: ListResponseView|
            crate::codec_laws::ids_fit(p.data) && s@ == response_json(p) ==> r@
                == crate::types::DecodedView::Response(p),
        forall|q: ListRequestView|
            s@ == request_json(q) ==> r@ == crate::types::DecodedView::Request(q),
{
    let r = classify(s);
    proof {
        crate::codec_laws::lemma_decode_exact(s@);
        assert forall|p: ListResponseView|
            crate::codec_laws::ids_fit(p.data) && s@ == response_json(p) implies r@
            == crate::types::DecodedView::Response(p) by {
            crate::codec_laws::lemma_response_roundtrip(p);
        }
        assert forall|q: ListRequestView|
            s@ == request_json(q) implies r@ == crate::types::DecodedView::Request(q) by {
            crate::codec_laws::lemma_request_roundtrip(q);
        }
    }
    r
}

/// Decodes the persisted collection file; `None` is a decode failure.
/// Exact as well: the text decodes to a collection if and only if it is
/// that collection's canonical encoding.
pub fn decode_recipes(s: &str) -> (r: Option<Vec<Recipe>>)
    ensures
        r is None ==> spec_decode_recipes(s@) is None,
        r matches Some(v) ==> spec_decode_recipes(s@) == Some(v.deep_view()),
        r matches Some(v) ==> s@ == recipes_json(v.deep_view()),
        forall|rs: Seq<RecipeView>|
            crate::codec_laws::ids_fit(rs) && s@ == recipes_json(rs) ==> spec_decode_recipes(s@)
                == Some(rs),
{
    let cs = chars_of(s);
    let n = cs.len();
    proof {
        crate::codec_laws::lemma_decode_recipes_exact(s@);
        assert forall|rs: Seq<RecipeView>|
            crate::codec_laws::ids_fit(rs) && s@ == recipes_json(rs) implies spec_decode_recipes(
            s@,
        ) == Some(rs) by {
            crate::codec_laws::lemma_recipes_roundtrip(rs);
        }
    }
    if let Some((v, j)) = parse_recipes(&cs, 0) {
        if j == n {
            return Some(v);
        }
    }
    None
}

} // verus!
