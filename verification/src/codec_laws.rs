//! Round-trip laws of the codec: a value encoded by the functions of
//! [`crate::codec`] and handed back to the parser yields the value again.
//! The main results are [`lemma_response_roundtrip`],
//! [`lemma_request_roundtrip`] and [`lemma_recipes_roundtrip`].

use vstd::arithmetic::div_mod::lemma_fundamental_div_mod;
use vstd::arithmetic::div_mod::lemma_fundamental_div_mod_converse;
use vstd::prelude::*;

use crate::codec::bool_json;
use crate::codec::ctl_char;
use crate::codec::decimal;
use crate::codec::digit_val;
use crate::codec::digits_end;
use crate::codec::digits_val;
use crate::codec::hex_char;
use crate::codec::hex_val;
use crate::codec::is_digit;
use crate::codec::is_hex_lower;
use crate::codec::json_escape;
use crate::codec::json_escape_char;
use crate::codec::json_string;
use crate::codec::lemma_digits_end_char;
use crate::codec::lit_all;
use crate::codec::lit_close;
use crate::codec::lit_data;
use crate::codec::lit_false;
use crate::codec::lit_ingredients;
use crate::codec::lit_instructions;
use crate::codec::lit_mode;
use crate::codec::lit_name;
use crate::codec::lit_obj_id;
use crate::codec::lit_one;
use crate::codec::lit_public;
use crate::codec::lit_receiver;
use crate::codec::lit_true;
use crate::codec::mode_json;
use crate::codec::p_bool;
use crate::codec::p_escchar;
use crate::codec::p_lit;
use crate::codec::p_mode;
use crate::codec::p_number;
use crate::codec::p_qstring;
use crate::codec::p_recipe;
use crate::codec::p_recipes;
use crate::codec::p_request;
use crate::codec::p_response;
use crate::codec::p_rlist_rest;
use crate::codec::p_strbody;
use crate::codec::recipe_json;
use crate::codec::recipes_items;
use crate::codec::recipes_json;
use crate::codec::recipes_rest;
use crate::codec::request_json;
use crate::codec::response_json;
use crate::codec::spec_decode;
use crate::codec::spec_decode_recipes;
use crate::types::DecodedView;
use crate::types::ListModeView;
use crate::types::ListRequestView;
use crate::types::ListResponseView;
use crate::types::RecipeView;

verus! {

/// Every id in the sequence fits the machine word; encoded collections
/// read back only under this bound.
pub open spec fn ids_fit(rs: Seq<RecipeView>) -> bool {
    forall|k: int| 0 <= k < rs.len() ==> (#[trigger] rs[k].id) <= usize::MAX as nat
}

/// Splits a known concatenation inside `s` into its two parts.
proof fn lemma_concat_split(s: Seq<char>, i: int, a: Seq<char>, b: Seq<char>)
    requires
        0 <= i,
        i + a.len() + b.len() <= s.len(),
        s.subrange(i, i + a.len() + b.len()) == a + b,
    ensures
        s.subrange(i, i + a.len() as int) == a,
        s.subrange(i + a.len() as int, i + a.len() + b.len()) == b,
{
    let whole = s.subrange(i, i + a.len() + b.len());
    assert forall|k: int| 0 <= k < a.len() implies s.subrange(i, i + a.len() as int)[k] == a[k] by {
        assert(whole[k] == s[i + k]);
        assert(whole[k] == (a + b)[k]);
    }
    assert forall|k: int|
        0 <= k < b.len() implies s.subrange(i + a.len() as int, i + a.len() + b.len())[k]
        == b[k] by {
        assert(whole[a.len() + k] == s[i + a.len() + k]);
        assert(whole[a.len() + k] == (a + b)[a.len() + k]);
    }
    assert(s.subrange(i, i + a.len() as int) =~= a);
    assert(s.subrange(i + a.len() as int, i + a.len() + b.len()) =~= b);
}

/// The fixed text parses where it stands.
proof fn lemma_lit_l1(s: Seq<char>, i: int, l: Seq<char>)
    requires
        0 <= i,
        i + l.len() <= s.len(),
        s.subrange(i, i + l.len() as int) == l,
    ensures
        p_lit(s, i, l) == Some(i + l.len() as int),
{
}

/// The canonical decimal notation is made of digits, starts with `0` only
/// for the number `0`, and reads back to the number.
proof fn lemma_decimal_facts(n: nat)
    ensures
        decimal(n).len() >= 1,
        forall|k: int| 0 <= k < decimal(n).len() ==> is_digit(#[trigger] decimal(n)[k]),
        digits_val(decimal(n)) == n,
        n < 10 ==> decimal(n).len() == 1,
        decimal(n)[0] == '0' ==> n == 0,
    decreases n,
{
    if n < 10 {
        let d = decimal(n);
        assert(d.drop_last() =~= Seq::<char>::empty());
        assert(d.last() == hex_char(n));
        assert(digit_val(hex_char(n)) == n);
        assert(is_digit(hex_char(n)));
        assert(digits_val(d) == digits_val(d.drop_last()) * 10 + digit_val(d.last()));
    } else {
        lemma_decimal_facts(n / 10);
        let d = decimal(n);
        let head = decimal(n / 10);
        assert(d == head + seq![hex_char(n % 10)]);
        assert(d.drop_last() =~= head);
        assert(d.last() == hex_char(n % 10));
        assert(digit_val(hex_char(n % 10)) == n % 10);
        assert(is_digit(hex_char(n % 10)));
        assert(digits_val(d) == digits_val(head) * 10 + digit_val(d.last()));
        lemma_fundamental_div_mod(n as int, 10);
        assert((n / 10) * 10 + n % 10 == n);
        assert(d[0] == head[0]);
        assert forall|k: int| 0 <= k < d.len() implies is_digit(#[trigger] d[k]) by {
            if k < head.len() {
                assert(d[k] == head[k]);
            } else {
                assert(d[k] == hex_char(n % 10));
            }
        }
    }
}

/// A canonical decimal followed by a non-digit parses to its value.
proof fn lemma_number_l1(s: Seq<char>, i: int, n: nat)
    requires
        0 <= i,
        i + decimal(n).len() <= s.len(),
        s.subrange(i, i + decimal(n).len() as int) == decimal(n),
        i + decimal(n).len() == s.len() || !is_digit(s[i + decimal(n).len()]),
        n <= usize::MAX as nat,
    ensures
        p_number(s, i) == Some((n as usize, i + decimal(n).len() as int)),
{
    lemma_decimal_facts(n);
    let d = decimal(n);
    let j = i + d.len() as int;
    assert forall|t: int| i <= t < j implies is_digit(#[trigger] s[t]) by {
        assert(s.subrange(i, j)[t - i] == s[t]);
    }
    lemma_digits_end_char(s, i, j);
    assert(s.subrange(i, j)[0] == s[i]);
    assert(s[i] == d[0]);
    if s[i] == '0' {
        assert(n == 0);
        assert(d.len() == 1);
    }
    assert(digits_val(s.subrange(i, j)) == n);
}

/// `true` and `false` parse where they stand.
proof fn lemma_bool_l1(s: Seq<char>, i: int, b: bool)
    requires
        0 <= i,
        i + bool_json(b).len() <= s.len(),
        s.subrange(i, i + bool_json(b).len() as int) == bool_json(b),
    ensures
        p_bool(s, i) == Some((b, i + bool_json(b).len() as int)),
{
    reveal_strlit("true");
    reveal_strlit("false");
    if b {
        lemma_lit_l1(s, i, lit_true());
    } else {
        assert(s.subrange(i, i + 5)[0] == s[i]);
        assert(s[i] == 'f');
        if i + lit_true().len() <= s.len() && s.subrange(i, i + lit_true().len() as int)
            == lit_true() {
            assert(s.subrange(i, i + 4)[0] == s[i]);
            assert(false);
        }
        assert(p_lit(s, i, lit_true()) is None);
        lemma_lit_l1(s, i, lit_false());
    }
}

/// The hexadecimal digit characters read back to their values.
proof fn lemma_hex_char_facts(w: nat)
    requires
        w < 16,
    ensures
        is_hex_lower(hex_char(w)),
        hex_val(hex_char(w)) == w,
{
}

/// One escaped character parses back to the character.
proof fn lemma_escchar_l1(s: Seq<char>, i: int, c: char)
    requires
        0 <= i,
        i + json_escape_char(c).len() <= s.len(),
        s.subrange(i, i + json_escape_char(c).len() as int) == json_escape_char(c),
    ensures
        json_escape_char(c).len() >= 1,
        p_escchar(s, i) == Some((c, i + json_escape_char(c).len() as int)),
{
    let e = json_escape_char(c);
    assert forall|t: int| 0 <= t < e.len() implies s[i + t] == e[t] by {
        assert(s.subrange(i, i + e.len() as int)[t] == s[i + t]);
    }
    assert(s.subrange(i, i + e.len() as int)[0] == s[i]);
    assert(s[i] == e[0]);
    if c == '"' || c == '\\' || c == '\u{8}' || c == '\u{9}' || c == '\u{A}' || c == '\u{C}' || c
        == '\u{D}' {
        assert(s[i] == '\\');
        assert(s[i + 1] == e[1]);
    } else if (c as u32) < 0x20 {
        let v = c as u32;
        assert(s[i] == '\\' && s[i + 1] == 'u' && s[i + 2] == '0' && s[i + 3] == '0');
        assert(s[i + 4] == hex_char((v / 16) as nat));
        assert(s[i + 5] == hex_char((v % 16) as nat));
        lemma_hex_char_facts((v / 16) as nat);
        lemma_hex_char_facts((v % 16) as nat);
        assert(v / 16 == 0 || v / 16 == 1);
        assert(s[i + 4] == '0' || s[i + 4] == '1');
        lemma_fundamental_div_mod(v as int, 16);
        assert(hex_val(s[i + 4]) * 16 + hex_val(s[i + 5]) == v as nat);
        assert(ctl_char((c as u32) as nat) == c);
        assert(v != 8 && v != 9 && v != 0xA && v != 0xC && v != 0xD);
    } else {
        assert(e[0] == c);
        assert(c != '\\' && c != '"');
        assert((c as u32) >= 0x20);
    }
}

/// A string body followed by its closing quote parses back to the string.
proof fn lemma_strbody_l1(s: Seq<char>, i: int, acc: Seq<char>, v: Seq<char>)
    requires
        0 <= i,
        i + json_escape(v).len() + 1 <= s.len(),
        s.subrange(i, i + json_escape(v).len() + 1) == json_escape(v) + seq!['"'],
    ensures
        p_strbody(s, i, acc) == Some((acc + v, i + json_escape(v).len() + 1)),
    decreases v.len(),
{
    if v.len() == 0 {
        assert(s.subrange(i, i + 1)[0] == s[i]);
        assert(s[i] == '"');
        assert(acc + v =~= acc);
    } else {
        let e0 = json_escape_char(v[0]);
        let rest = json_escape(v.drop_first());
        assert(json_escape(v) == e0 + rest);
        assert(json_escape(v) + seq!['"'] =~= e0 + (rest + seq!['"']));
        lemma_concat_split(s, i, e0, rest + seq!['"']);
        lemma_escchar_l1(s, i, v[0]);
        let j = i + e0.len() as int;
        assert(s.subrange(i, j)[0] == s[i]);
        assert(s[i] == e0[0]);
        assert(e0[0] != '"');
        lemma_strbody_l1(s, j, acc.push(v[0]), v.drop_first());
        assert(acc.push(v[0]) + v.drop_first() =~= acc + v);
    }
}

/// A quoted string parses back to its contents.
proof fn lemma_qstring_l1(s: Seq<char>, i: int, v: Seq<char>)
    requires
        0 <= i,
        i + json_string(v).len() <= s.len(),
        s.subrange(i, i + json_string(v).len() as int) == json_string(v),
    ensures
        p_qstring(s, i) == Some((v, i + json_string(v).len() as int)),
{
    assert(json_string(v) =~= seq!['"'] + (json_escape(v) + seq!['"']));
    lemma_concat_split(s, i, seq!['"'], json_escape(v) + seq!['"']);
    assert(s.subrange(i, i + 1)[0] == s[i]);
    assert(s[i] == '"');
    lemma_strbody_l1(s, i + 1, Seq::empty(), v);
    assert(Seq::empty() + v =~= v);
}

/// A recipe object parses back to the recipe.
#[verifier::rlimit(100)]
proof fn lemma_recipe_l1(s: Seq<char>, i: int, r: RecipeView)
    requires
        0 <= i,
        r.id <= usize::MAX as nat,
        i + recipe_json(r).len() <= s.len(),
        s.subrange(i, i + recipe_json(r).len() as int) == recipe_json(r),
    ensures
        p_recipe(s, i) == Some((r, i + recipe_json(r).len() as int)),
{
    reveal_strlit(",\"name\":");
    let a1 = lit_obj_id();
    let a2 = decimal(r.id);
    let a3 = lit_name();
    let a4 = json_string(r.name);
    let a5 = lit_ingredients();
    let a6 = json_string(r.ingredients);
    let a7 = lit_instructions();
    let a8 = json_string(r.instructions);
    let a9 = lit_public();
    let a10 = bool_json(r.public);
    let a11 = lit_close();
    let t11 = a11;
    let t10 = a10 + t11;
    let t9 = a9 + t10;
    let t8 = a8 + t9;
    let t7 = a7 + t8;
    let t6 = a6 + t7;
    let t5 = a5 + t6;
    let t4 = a4 + t5;
    let t3 = a3 + t4;
    let t2 = a2 + t3;
    assert(recipe_json(r) =~= a1 + t2);
    lemma_concat_split(s, i, a1, t2);
    lemma_lit_l1(s, i, a1);
    let i1 = i + a1.len() as int;
    lemma_concat_split(s, i1, a2, t3);
    let i2 = i1 + a2.len() as int;
    assert(s.subrange(i2, i2 + t3.len() as int)[0] == s[i2]);
    assert(t3[0] == a3[0]);
    assert(s[i2] == ',');
    assert(!is_digit(','));
    lemma_number_l1(s, i1, r.id);
    lemma_concat_split(s, i2, a3, t4);
    lemma_lit_l1(s, i2, a3);
    let i3 = i2 + a3.len() as int;
    lemma_concat_split(s, i3, a4, t5);
    lemma_qstring_l1(s, i3, r.name);
    let i4 = i3 + a4.len() as int;
    lemma_concat_split(s, i4, a5, t6);
    lemma_lit_l1(s, i4, a5);
    let i5 = i4 + a5.len() as int;
    lemma_concat_split(s, i5, a6, t7);
    lemma_qstring_l1(s, i5, r.ingredients);
    let i6 = i5 + a6.len() as int;
    lemma_concat_split(s, i6, a7, t8);
    lemma_lit_l1(s, i6, a7);
    let i7 = i6 + a7.len() as int;
    lemma_concat_split(s, i7, a8, t9);
    lemma_qstring_l1(s, i7, r.instructions);
    let i8 = i7 + a8.len() as int;
    lemma_concat_split(s, i8, a9, t10);
    lemma_lit_l1(s, i8, a9);
    let i9 = i8 + a9.len() as int;
    lemma_concat_split(s, i9, a10, t11);
    lemma_bool_l1(s, i9, r.public);
    let i10 = i9 + a10.len() as int;
    lemma_lit_l1(s, i10, a11);
}

/// The tail of an encoded recipe array parses back to the items.
proof fn lemma_rlist_rest_l1(s: Seq<char>, i: int, acc: Seq<RecipeView>, rest: Seq<RecipeView>)
    requires
        0 <= i,
        ids_fit(rest),
        i + recipes_rest(rest).len() + 1 <= s.len(),
        s.subrange(i, i + recipes_rest(rest).len() + 1) == recipes_rest(rest) + seq![']'],
    ensures
        p_rlist_rest(s, i, acc) == Some((acc + rest, i + recipes_rest(rest).len() + 1)),
    decreases rest.len(),
{
    if rest.len() == 0 {
        assert(s.subrange(i, i + 1)[0] == s[i]);
        assert(s[i] == ']');
        assert(acc + rest =~= acc);
    } else {
        reveal_strlit("{\"id\":");
        let rj = recipe_json(rest[0]);
        let tail = recipes_rest(rest.drop_first());
        assert(recipes_rest(rest) == seq![','] + rj + tail);
        assert(recipes_rest(rest) + seq![']'] =~= seq![','] + (rj + (tail + seq![']'])));
        lemma_concat_split(s, i, seq![','], rj + (tail + seq![']']));
        assert(s.subrange(i, i + 1)[0] == s[i]);
        assert(s[i] == ',');
        lemma_concat_split(s, i + 1, rj, tail + seq![']']);
        assert(rest[0].id <= usize::MAX as nat);
        lemma_recipe_l1(s, i + 1, rest[0]);
        let j = i + 1 + rj.len() as int;
        assert(ids_fit(rest.drop_first())) by {
            assert(forall|k: int|
                0 <= k < rest.drop_first().len() ==> #[trigger] rest.drop_first()[k] == rest[k
                    + 1]);
        }
        lemma_rlist_rest_l1(s, j, acc.push(rest[0]), rest.drop_first());
        assert(acc.push(rest[0]) + rest.drop_first() =~= acc + rest);
    }
}

/// A recipe array parses back to its items.
#[verifier::rlimit(100)]
proof fn lemma_recipes_l1(s: Seq<char>, i: int, rs: Seq<RecipeView>)
    requires
        0 <= i,
        ids_fit(rs),
        i + recipes_json(rs).len() <= s.len(),
        s.subrange(i, i + recipes_json(rs).len() as int) == recipes_json(rs),
    ensures
        p_recipes(s, i) == Some((rs, i + recipes_json(rs).len() as int)),
{
    assert(recipes_json(rs) =~= seq!['['] + (recipes_items(rs) + seq![']']));
    lemma_concat_split(s, i, seq!['['], recipes_items(rs) + seq![']']);
    assert(s.subrange(i, i + 1)[0] == s[i]);
    assert(s[i] == '[');
    if rs.len() == 0 {
        assert(recipes_items(rs) == Seq::<char>::empty());
        assert(recipes_items(rs) + seq![']'] =~= seq![']']);
        assert(s.subrange(i + 1, i + 2)[0] == s[i + 1]);
        assert(s[i + 1] == ']');
        assert(rs =~= Seq::<RecipeView>::empty());
    } else {
        reveal_strlit("{\"id\":");
        let rj = recipe_json(rs[0]);
        let tail = recipes_rest(rs.drop_first());
        assert(recipes_items(rs) == rj + tail);
        assert(recipes_items(rs) + seq![']'] =~= rj + (tail + seq![']']));
        lemma_concat_split(s, i + 1, rj, tail + seq![']']);
        assert(s.subrange(i + 1, i + 1 + rj.len() as int)[0] == s[i + 1]);
        assert(rj =~= lit_obj_id() + (decimal(rs[0].id) + lit_name() + json_string(rs[0].name)
            + lit_ingredients() + json_string(rs[0].ingredients) + lit_instructions()
            + json_string(rs[0].instructions) + lit_public() + bool_json(rs[0].public)
            + lit_close()));
        assert(rj[0] == lit_obj_id()[0]);
        assert(s[i + 1] == '{');
        assert(rs[0].id <= usize::MAX as nat);
        lemma_recipe_l1(s, i + 1, rs[0]);
        let j = i + 1 + rj.len() as int;
        assert(ids_fit(rs.drop_first())) by {
            assert(forall|k: int|
                0 <= k < rs.drop_first().len() ==> #[trigger] rs.drop_first()[k] == rs[k + 1]);
        }
        lemma_rlist_rest_l1(s, j, seq![rs[0]], rs.drop_first());
        assert(seq![rs[0]] + rs.drop_first() =~= rs);
    }
}

/// A mode parses back to itself.
proof fn lemma_mode_l1(s: Seq<char>, i: int, m: ListModeView)
    requires
        0 <= i,
        i + mode_json(m).len() <= s.len(),
        s.subrange(i, i + mode_json(m).len() as int) == mode_json(m),
    ensures
        p_mode(s, i) == Some((m, i + mode_json(m).len() as int)),
{
    reveal_strlit("\"ALL\"");
    reveal_strlit("{\"One\":");
    match m {
        ListModeView::All => {
            lemma_lit_l1(s, i, lit_all());
        },
        ListModeView::One(peer) => {
            let a = lit_one();
            let b = json_string(peer);
            let cl = lit_close();
            assert(mode_json(m) =~= a + (b + cl));
            lemma_concat_split(s, i, a, b + cl);
            assert(s.subrange(i, i + a.len() as int)[0] == s[i]);
            assert(s[i] == '{');
            if i + lit_all().len() <= s.len() && s.subrange(i, i + lit_all().len() as int)
                == lit_all() {
                assert(s.subrange(i, i + lit_all().len() as int)[0] == s[i]);
                assert(false);
            }
            assert(p_lit(s, i, lit_all()) is None);
            lemma_lit_l1(s, i, a);
            let i1 = i + a.len() as int;
            lemma_concat_split(s, i1, b, cl);
            lemma_qstring_l1(s, i1, peer);
            let i2 = i1 + b.len() as int;
            lemma_lit_l1(s, i2, cl);
        },
    }
}

/// A whole encoded request parses back to the request, consuming all of it.
proof fn lemma_request_l1(q: ListRequestView)
    ensures
        p_request(request_json(q), 0) == Some((q, request_json(q).len() as int)),
{
    let s = request_json(q);
    let a = lit_mode();
    let b = mode_json(q.mode);
    let cl = lit_close();
    assert(s.subrange(0, s.len() as int) =~= s);
    assert(s =~= a + (b + cl));
    lemma_concat_split(s, 0, a, b + cl);
    lemma_lit_l1(s, 0, a);
    let i1 = a.len() as int;
    lemma_concat_split(s, i1, b, cl);
    lemma_mode_l1(s, i1, q.mode);
    let i2 = i1 + b.len() as int;
    lemma_lit_l1(s, i2, cl);
}

/// A whole encoded response parses back to the response, consuming all of
/// it.
#[verifier::rlimit(100)]
proof fn lemma_response_l1(p: ListResponseView)
    requires
        ids_fit(p.data),
    ensures
        p_response(response_json(p), 0) == Some((p, response_json(p).len() as int)),
{
    let s = response_json(p);
    let a1 = lit_mode();
    let a2 = mode_json(p.mode);
    let a3 = lit_data();
    let a4 = recipes_json(p.data);
    let a5 = lit_receiver();
    let a6 = json_string(p.receiver);
    let a7 = lit_close();
    let t7 = a7;
    let t6 = a6 + t7;
    let t5 = a5 + t6;
    let t4 = a4 + t5;
    let t3 = a3 + t4;
    let t2 = a2 + t3;
    assert(s.subrange(0, s.len() as int) =~= s);
    let l1 = a1 + a2;
    let l2 = l1 + a3;
    let l3 = l2 + a4;
    let l4 = l3 + a5;
    let l5 = l4 + a6;
    assert(s == l5 + a7);
    vstd::seq_lib::lemma_concat_associative(l4, a6, t7);
    assert(s == l4 + t6);
    vstd::seq_lib::lemma_concat_associative(l3, a5, t6);
    assert(s == l3 + t5);
    vstd::seq_lib::lemma_concat_associative(l2, a4, t5);
    assert(s == l2 + t4);
    vstd::seq_lib::lemma_concat_associative(l1, a3, t4);
    assert(s == l1 + t3);
    vstd::seq_lib::lemma_concat_associative(a1, a2, t3);
    assert(s == a1 + t2);
    lemma_concat_split(s, 0, a1, t2);
    lemma_lit_l1(s, 0, a1);
    let i1 = a1.len() as int;
    lemma_concat_split(s, i1, a2, t3);
    lemma_mode_l1(s, i1, p.mode);
    let i2 = i1 + a2.len() as int;
    lemma_concat_split(s, i2, a3, t4);
    lemma_lit_l1(s, i2, a3);
    let i3 = i2 + a3.len() as int;
    lemma_concat_split(s, i3, a4, t5);
    lemma_recipes_l1(s, i3, p.data);
    let i4 = i3 + a4.len() as int;
    lemma_concat_split(s, i4, a5, t6);
    lemma_lit_l1(s, i4, a5);
    let i5 = i4 + a5.len() as int;
    lemma_concat_split(s, i5, a6, t7);
    lemma_qstring_l1(s, i5, p.receiver);
    let i6 = i5 + a6.len() as int;
    lemma_lit_l1(s, i6, a7);
}

/// Round trip: decoding an encoded request yields the request again.
pub proof fn lemma_request_roundtrip(q: ListRequestView)
    ensures
        spec_decode(request_json(q)) == DecodedView::Request(q),
{
    let s = request_json(q);
    lemma_request_l1(q);
    reveal_strlit(",\"data\":");
    reveal_strlit("}");
    // A request is never mistaken for a response: after the mode the
    // payload ends, and the response grammar would still need its data
    // field there.
    let a = lit_mode();
    let b = mode_json(q.mode);
    let cl = lit_close();
    assert(s.subrange(0, s.len() as int) =~= s);
    assert(s =~= a + (b + cl));
    lemma_concat_split(s, 0, a, b + cl);
    lemma_lit_l1(s, 0, a);
    let i1 = a.len() as int;
    lemma_concat_split(s, i1, b, cl);
    lemma_mode_l1(s, i1, q.mode);
    let i2 = i1 + b.len() as int;
    assert(i2 + lit_data().len() > s.len());
    assert(p_lit(s, i2, lit_data()) is None);
    assert(p_response(s, 0) is None);
}

/// Round trip: decoding an encoded response yields the response again.
pub proof fn lemma_response_roundtrip(p: ListResponseView)
    requires
        ids_fit(p.data),
    ensures
        spec_decode(response_json(p)) == DecodedView::Response(p),
{
    lemma_response_l1(p);
}

/// Round trip: decoding an encoded collection yields the collection again.
pub proof fn lemma_recipes_roundtrip(rs: Seq<RecipeView>)
    requires
        ids_fit(rs),
    ensures
        spec_decode_recipes(recipes_json(rs)) == Some(rs),
{
    let s = recipes_json(rs);
    assert(s.subrange(0, s.len() as int) =~= s);
    lemma_recipes_l1(s, 0, rs);
}

/// An unrecognized payload is no encoding at all: whatever is silently
/// dropped could not have been produced by the encoder.
pub proof fn lemma_unrecognized_is_no_encoding(s: Seq<char>)
    requires
        spec_decode(s) == DecodedView::Unrecognized,
    ensures
        forall|p: ListResponseView| ids_fit(p.data) ==> s != response_json(p),
        forall|q: ListRequestView| s != request_json(q),
{
    assert forall|p: ListResponseView| ids_fit(p.data) implies s != response_json(p) by {
        if s == response_json(p) {
            lemma_response_roundtrip(p);
        }
    }
    assert forall|q: ListRequestView| s != request_json(q) by {
        if s == request_json(q) {
            lemma_request_roundtrip(q);
        }
    }
}

// ---------------------------------------------------------------------------
// The converse direction: whatever the parser accepts is exactly the
// encoder's output for the parsed value.  Together with the lemmas above
// this pins the grammar completely: a payload decodes to a value if and
// only if it is that value's canonical encoding.
// ---------------------------------------------------------------------------
/// A subrange is the concatenation of its two halves.
proof fn lemma_subrange_join(s: Seq<char>, i: int, m: int, j: int)
    requires
        0 <= i <= m <= j <= s.len(),
    ensures
        s.subrange(i, j) == s.subrange(i, m) + s.subrange(m, j),
{
    assert(s.subrange(i, j) =~= s.subrange(i, m) + s.subrange(m, j));
}

/// Everything strictly before `digits_end` is a digit, and the run stops
/// at the end of the text or at a non-digit.
proof fn lemma_digits_end_props(s: Seq<char>, i: int)
    requires
        0 <= i <= s.len(),
    ensures
        i <= digits_end(s, i) <= s.len(),
        forall|t: int| i <= t < digits_end(s, i) ==> is_digit(#[trigger] s[t]),
        digits_end(s, i) == s.len() || !is_digit(s[digits_end(s, i)]),
    decreases s.len() - i,
{
    if i < s.len() && is_digit(s[i]) {
        lemma_digits_end_props(s, i + 1);
    }
}

/// A digit string without a leading zero has a positive value.
proof fn lemma_digits_val_pos(d: Seq<char>)
    requires
        d.len() >= 1,
        forall|k: int| 0 <= k < d.len() ==> is_digit(#[trigger] d[k]),
        d[0] != '0',
    ensures
        digits_val(d) >= 1,
    decreases d.len(),
{
    if d.len() == 1 {
        assert(d.drop_last() =~= Seq::<char>::empty());
        assert(digit_val(d[0]) >= 1);
    } else {
        lemma_digits_val_pos(d.drop_last());
    }
}

/// A digit is its own value's digit character.
proof fn lemma_digit_char_inverse(c: char)
    requires
        is_digit(c),
    ensures
        digit_val(c) < 10,
        hex_char(digit_val(c)) == c,
{
}

/// Canonical decimal notation is unique: a digit string without a leading
/// zero is the notation of its own value.
proof fn lemma_decimal_canon(d: Seq<char>)
    requires
        d.len() >= 1,
        forall|k: int| 0 <= k < d.len() ==> is_digit(#[trigger] d[k]),
        d.len() == 1 || d[0] != '0',
    ensures
        decimal(digits_val(d)) == d,
    decreases d.len(),
{
    lemma_digit_char_inverse(d.last());
    if d.len() == 1 {
        assert(d.drop_last() =~= Seq::<char>::empty());
        assert(digits_val(d) == digits_val(d.drop_last()) * 10 + digit_val(d.last()));
        assert(digits_val(d) == digit_val(d[0]));
        assert(decimal(digits_val(d)) =~= d);
    } else {
        let dd = d.drop_last();
        lemma_decimal_canon(dd);
        lemma_digits_val_pos(dd);
        let v = digits_val(d);
        assert(v == digits_val(dd) * 10 + digit_val(d.last()));
        lemma_fundamental_div_mod_converse(
            v as int,
            10,
            digits_val(dd) as int,
            digit_val(d.last()) as int,
        );
        assert(v / 10 == digits_val(dd));
        assert(v % 10 == digit_val(d.last()));
        assert(v >= 10);
        assert(decimal(v) == decimal(v / 10) + seq![hex_char(v % 10)]);
        assert(decimal(v) =~= d);
    }
}

/// What the number parser accepted is the canonical notation of its
/// value.
proof fn lemma_number_l2(s: Seq<char>, i: int, v: usize, j: int)
    requires
        0 <= i <= s.len(),
        p_number(s, i) == Some((v, j)),
    ensures
        i < j <= s.len(),
        s.subrange(i, j) == decimal(v as nat),
        j == s.len() || !is_digit(s[j]),
{
    lemma_digits_end_props(s, i);
    let d = s.subrange(i, j);
    assert forall|k: int| 0 <= k < d.len() implies is_digit(#[trigger] d[k]) by {
        assert(d[k] == s[i + k]);
    }
    assert(d[0] == s[i]);
    lemma_decimal_canon(d);
}

/// A lowercase hexadecimal digit is its own value's digit character.
proof fn lemma_hex_char_inverse(h: char)
    requires
        is_hex_lower(h),
    ensures
        hex_val(h) < 16,
        hex_char(hex_val(h)) == h,
{
}

/// What the escape parser accepted is the canonical escape of its
/// character.
proof fn lemma_escchar_l2(s: Seq<char>, i: int, c: char, j: int)
    requires
        p_escchar(s, i) == Some((c, j)),
    ensures
        0 <= i < j <= s.len(),
        s.subrange(i, j) == json_escape_char(c),
{
    if s[i] == '\\' {
        let e = s[i + 1];
        if e == 'u' {
            let v = hex_val(s[i + 4]) * 16 + hex_val(s[i + 5]);
            lemma_hex_char_inverse(s[i + 4]);
            lemma_hex_char_inverse(s[i + 5]);
            assert(hex_val(s[i + 4]) == 0 || hex_val(s[i + 4]) == 1);
            assert((c as u32) as nat == v);
            lemma_fundamental_div_mod_converse(
                v as int,
                16,
                hex_val(s[i + 4]) as int,
                hex_val(s[i + 5]) as int,
            );
            assert(v / 16 == hex_val(s[i + 4]));
            assert(v % 16 == hex_val(s[i + 5]));
            assert(json_escape_char(c) == seq!['\\', 'u', '0', '0', hex_char(((c as u32) / 16) as nat), hex_char(
                ((c as u32) % 16) as nat,
            )]);
            assert(s.subrange(i, j) =~= json_escape_char(c));
        } else {
            assert(s.subrange(i, j) =~= json_escape_char(c));
        }
    } else {
        assert(s.subrange(i, j) =~= json_escape_char(c));
    }
}

/// What the string-body parser accepted is the escaped form of the
/// characters it appended, followed by the closing quote.
proof fn lemma_strbody_l2(s: Seq<char>, i: int, acc: Seq<char>, w: Seq<char>, j: int)
    requires
        0 <= i <= s.len(),
        p_strbody(s, i, acc) == Some((w, j)),
    ensures
        i < j <= s.len(),
        acc.len() <= w.len(),
        w.subrange(0, acc.len() as int) == acc,
        s.subrange(i, j) == json_escape(w.subrange(acc.len() as int, w.len() as int)) + seq!['"'],
    decreases s.len() - i,
{
    if s[i] == '"' {
        assert(w == acc);
        assert(w.subrange(0, acc.len() as int) =~= acc);
        assert(w.subrange(acc.len() as int, w.len() as int) =~= Seq::<char>::empty());
        assert(s.subrange(i, j) =~= json_escape(Seq::<char>::empty()) + seq!['"']);
    } else {
        let (c, j1) = p_escchar(s, i).unwrap();
        lemma_escchar_l2(s, i, c, j1);
        lemma_strbody_l2(s, j1, acc.push(c), w, j);
        assert(w.subrange(0, acc.len() as int + 1) == acc.push(c));
        assert forall|k: int|
            0 <= k < acc.len() implies w.subrange(0, acc.len() as int)[k] == acc[k] by {
            assert(w.subrange(0, acc.len() as int + 1)[k] == acc.push(c)[k]);
        }
        assert(w.subrange(0, acc.len() as int) =~= acc);
        assert(w[acc.len() as int] == acc.push(c)[acc.len() as int]);
        assert(w[acc.len() as int] == c);
        let mid = w.subrange(acc.len() as int, w.len() as int);
        assert(mid[0] == c);
        assert(mid.drop_first() =~= w.subrange(acc.len() as int + 1, w.len() as int));
        assert(json_escape(mid) == json_escape_char(c) + json_escape(mid.drop_first()));
        lemma_subrange_join(s, i, j1, j);
        assert((json_escape_char(c) + (json_escape(mid.drop_first()) + seq!['"'])) =~= json_escape(
            mid,
        ) + seq!['"']);
    }
}

/// What the quoted-string parser accepted is the quoted, escaped form of
/// its value.
proof fn lemma_qstring_l2(s: Seq<char>, i: int, w: Seq<char>, j: int)
    requires
        p_qstring(s, i) == Some((w, j)),
    ensures
        0 <= i < j <= s.len(),
        s.subrange(i, j) == json_string(w),
{
    lemma_strbody_l2(s, i + 1, Seq::empty(), w, j);
    assert(w.subrange(0, w.len() as int) =~= w);
    lemma_subrange_join(s, i, i + 1, j);
    assert(s.subrange(i, i + 1) =~= seq!['"']);
    assert((seq!['"'] + (json_escape(w) + seq!['"'])) =~= json_string(w));
}

/// What the boolean parser accepted is the canonical notation of its
/// value.
proof fn lemma_bool_l2(s: Seq<char>, i: int, b: bool, j: int)
    requires
        p_bool(s, i) == Some((b, j)),
    ensures
        0 <= i < j <= s.len(),
        s.subrange(i, j) == bool_json(b),
{
    reveal_strlit("true");
    reveal_strlit("false");
}

/// What the recipe parser accepted is the canonical encoding of the
/// recipe it returned.
#[verifier::rlimit(100)]
proof fn lemma_recipe_l2(s: Seq<char>, i: int, r: RecipeView, j: int)
    requires
        p_recipe(s, i) == Some((r, j)),
    ensures
        0 <= i < j <= s.len(),
        s.subrange(i, j) == recipe_json(r),
        r.id <= usize::MAX as nat,
{
    reveal_strlit("{\"id\":");
    let a1 = lit_obj_id();
    let i1 = i + a1.len() as int;
    let (id, i2) = p_number(s, i1).unwrap();
    let i3 = i2 + lit_name().len() as int;
    let (name, i4) = p_qstring(s, i3).unwrap();
    let i5 = i4 + lit_ingredients().len() as int;
    let (ingredients, i6) = p_qstring(s, i5).unwrap();
    let i7 = i6 + lit_instructions().len() as int;
    let (instructions, i8) = p_qstring(s, i7).unwrap();
    let i9 = i8 + lit_public().len() as int;
    let (public, i10) = p_bool(s, i9).unwrap();
    lemma_number_l2(s, i1, id, i2);
    lemma_qstring_l2(s, i3, name, i4);
    lemma_qstring_l2(s, i5, ingredients, i6);
    lemma_qstring_l2(s, i7, instructions, i8);
    lemma_bool_l2(s, i9, public, i10);
    let u11 = s.subrange(i10, j);
    let u10 = s.subrange(i9, j);
    let u9 = s.subrange(i8, j);
    let u8 = s.subrange(i7, j);
    let u7 = s.subrange(i6, j);
    let u6 = s.subrange(i5, j);
    let u5 = s.subrange(i4, j);
    let u4 = s.subrange(i3, j);
    let u3 = s.subrange(i2, j);
    let u2 = s.subrange(i1, j);
    let u1 = s.subrange(i, j);
    lemma_subrange_join(s, i9, i10, j);
    lemma_subrange_join(s, i8, i9, j);
    lemma_subrange_join(s, i7, i8, j);
    lemma_subrange_join(s, i6, i7, j);
    lemma_subrange_join(s, i5, i6, j);
    lemma_subrange_join(s, i4, i5, j);
    lemma_subrange_join(s, i3, i4, j);
    lemma_subrange_join(s, i2, i3, j);
    lemma_subrange_join(s, i1, i2, j);
    lemma_subrange_join(s, i, i1, j);
    assert(u1 == a1 + (s.subrange(i1, i2) + (s.subrange(i2, i3) + (s.subrange(i3, i4) + (
    s.subrange(i4, i5) + (s.subrange(i5, i6) + (s.subrange(i6, i7) + (s.subrange(i7, i8) + (
    s.subrange(i8, i9) + (s.subrange(i9, i10) + u11))))))))));
    assert(u1 =~= recipe_json(r));
}

/// What the array-tail parser accepted is the canonical encoding of the
/// items it appended, closed by `]`.
proof fn lemma_rlist_rest_l2(s: Seq<char>, i: int, acc: Seq<RecipeView>, w: Seq<RecipeView>, j: int)
    requires
        0 <= i <= s.len(),
        p_rlist_rest(s, i, acc) == Some((w, j)),
    ensures
        i < j <= s.len(),
        acc.len() <= w.len(),
        w.subrange(0, acc.len() as int) == acc,
        s.subrange(i, j) == recipes_rest(w.subrange(acc.len() as int, w.len() as int))
            + seq![']'],
        ids_fit(w.subrange(acc.len() as int, w.len() as int)),
    decreases s.len() - i,
{
    let tail = w.subrange(acc.len() as int, w.len() as int);
    if s[i] == ']' {
        assert(w == acc);
        assert(w.subrange(0, acc.len() as int) =~= acc);
        assert(tail =~= Seq::<RecipeView>::empty());
        assert(s.subrange(i, j) =~= recipes_rest(tail) + seq![']']);
    } else {
        let (r, j1) = p_recipe(s, i + 1).unwrap();
        lemma_recipe_l2(s, i + 1, r, j1);
        lemma_rlist_rest_l2(s, j1, acc.push(r), w, j);
        assert(w.subrange(0, acc.len() as int + 1) == acc.push(r));
        assert forall|k: int|
            0 <= k < acc.len() implies w.subrange(0, acc.len() as int)[k] == acc[k] by {
            assert(w.subrange(0, acc.len() as int + 1)[k] == acc.push(r)[k]);
        }
        assert(w.subrange(0, acc.len() as int) =~= acc);
        assert(w[acc.len() as int] == acc.push(r)[acc.len() as int]);
        assert(w[acc.len() as int] == r);
        assert(tail[0] == r);
        assert(tail.drop_first() =~= w.subrange(acc.len() as int + 1, w.len() as int));
        assert(recipes_rest(tail) == seq![','] + recipe_json(r) + recipes_rest(tail.drop_first()));
        lemma_subrange_join(s, i, i + 1, j);
        lemma_subrange_join(s, i + 1, j1, j);
        assert(s.subrange(i, i + 1) =~= seq![',']);
        assert(s.subrange(i, j) == seq![','] + (recipe_json(r) + (recipes_rest(tail.drop_first())
            + seq![']'])));
        assert(s.subrange(i, j) =~= recipes_rest(tail) + seq![']']);
        assert forall|k: int| 0 <= k < tail.len() implies (#[trigger] tail[k]).id <= usize::MAX
            as nat by {
            if k > 0 {
                assert(tail.drop_first()[k - 1] == tail[k]);
            }
        }
    }
}

/// What the array parser accepted is the canonical encoding of the
/// collection it returned.
proof fn lemma_recipes_l2(s: Seq<char>, i: int, w: Seq<RecipeView>, j: int)
    requires
        p_recipes(s, i) == Some((w, j)),
    ensures
        0 <= i < j <= s.len(),
        s.subrange(i, j) == recipes_json(w),
        ids_fit(w),
{
    if i + 1 < s.len() && s[i + 1] == ']' {
        assert(w =~= Seq::<RecipeView>::empty());
        assert(s.subrange(i, j) =~= recipes_json(w));
    } else {
        let (r, j1) = p_recipe(s, i + 1).unwrap();
        lemma_recipe_l2(s, i + 1, r, j1);
        lemma_rlist_rest_l2(s, j1, seq![r], w, j);
        assert(w.subrange(0, 1) == seq![r]);
        assert(w.subrange(0, 1)[0] == w[0]);
        assert(w[0] == r);
        let tail = w.subrange(1, w.len() as int);
        assert(w.drop_first() =~= tail);
        assert(recipes_items(w) == recipe_json(r) + recipes_rest(tail));
        lemma_subrange_join(s, i, i + 1, j);
        lemma_subrange_join(s, i + 1, j1, j);
        assert(s.subrange(i, i + 1) =~= seq!['[']);
        assert(s.subrange(i, j) == seq!['['] + (recipe_json(r) + (recipes_rest(tail)
            + seq![']'])));
        assert(s.subrange(i, j) =~= recipes_json(w));
        assert forall|k: int| 0 <= k < w.len() implies (#[trigger] w[k]).id <= usize::MAX
            as nat by {
            if k > 0 {
                assert(tail[k - 1] == w[k]);
            }
        }
    }
}

/// What the mode parser accepted is the canonical encoding of the mode.
proof fn lemma_mode_l2(s: Seq<char>, i: int, m: ListModeView, j: int)
    requires
        p_mode(s, i) == Some((m, j)),
    ensures
        0 <= i < j <= s.len(),
        s.subrange(i, j) == mode_json(m),
{
    reveal_strlit("\"ALL\"");
    reveal_strlit("{\"One\":");
    reveal_strlit("}");
    match p_lit(s, i, lit_all()) {
        Some(_) => {},
        None => {
            let i1 = i + lit_one().len() as int;
            let (peer, i2) = p_qstring(s, i1).unwrap();
            lemma_qstring_l2(s, i1, peer, i2);
            lemma_subrange_join(s, i, i1, j);
            lemma_subrange_join(s, i1, i2, j);
            assert(s.subrange(i, j) == lit_one() + (json_string(peer) + lit_close()));
            assert(s.subrange(i, j) =~= mode_json(m));
        },
    }
}

/// What the request parser accepted is the canonical encoding of the
/// request.
proof fn lemma_request_l2(s: Seq<char>, i: int, q: ListRequestView, j: int)
    requires
        p_request(s, i) == Some((q, j)),
    ensures
        0 <= i < j <= s.len(),
        s.subrange(i, j) == request_json(q),
{
    reveal_strlit("{\"mode\":");
    let i1 = i + lit_mode().len() as int;
    let (mode, i2) = p_mode(s, i1).unwrap();
    lemma_mode_l2(s, i1, mode, i2);
    lemma_subrange_join(s, i, i1, j);
    lemma_subrange_join(s, i1, i2, j);
    assert(s.subrange(i, j) == lit_mode() + (mode_json(mode) + lit_close()));
    assert(s.subrange(i, j) =~= request_json(q));
}

/// What the response parser accepted is the canonical encoding of the
/// response.
#[verifier::rlimit(100)]
proof fn lemma_response_l2(s: Seq<char>, i: int, p: ListResponseView, j: int)
    requires
        p_response(s, i) == Some((p, j)),
    ensures
        0 <= i < j <= s.len(),
        s.subrange(i, j) == response_json(p),
        ids_fit(p.data),
{
    reveal_strlit("{\"mode\":");
    let i1 = i + lit_mode().len() as int;
    let (mode, i2) = p_mode(s, i1).unwrap();
    let i3 = i2 + lit_data().len() as int;
    let (data, i4) = p_recipes(s, i3).unwrap();
    let i5 = i4 + lit_receiver().len() as int;
    let (receiver, i6) = p_qstring(s, i5).unwrap();
    lemma_mode_l2(s, i1, mode, i2);
    lemma_recipes_l2(s, i3, data, i4);
    lemma_qstring_l2(s, i5, receiver, i6);
    lemma_subrange_join(s, i5, i6, j);
    lemma_subrange_join(s, i4, i5, j);
    lemma_subrange_join(s, i3, i4, j);
    lemma_subrange_join(s, i2, i3, j);
    lemma_subrange_join(s, i1, i2, j);
    lemma_subrange_join(s, i, i1, j);
    assert(s.subrange(i, j) == lit_mode() + (mode_json(mode) + (lit_data() + (recipes_json(data)
        + (lit_receiver() + (json_string(receiver) + lit_close()))))));
    assert(s.subrange(i, j) =~= response_json(p));
}

/// The decoder, exactly: a payload is classified as a response or a
/// request if and only if it is that value's canonical encoding, and is
/// `Unrecognized` exactly when it encodes nothing.
pub proof fn lemma_decode_exact(s: Seq<char>)
    ensures
        match spec_decode(s) {
            DecodedView::Response(p) => s == response_json(p) && ids_fit(p.data),
            DecodedView::Request(q) => s == request_json(q),
            DecodedView::Unrecognized => (forall|p: ListResponseView|
                ids_fit(p.data) ==> s != response_json(p)) && (forall|q: ListRequestView|
                s != request_json(q)),
        },
{
    assert(s.subrange(0, s.len() as int) =~= s);
    match spec_decode(s) {
        DecodedView::Response(p) => {
            let (p0, j) = p_response(s, 0).unwrap();
            lemma_response_l2(s, 0, p0, j);
        },
        DecodedView::Request(q) => {
            let (q0, j) = p_request(s, 0).unwrap();
            lemma_request_l2(s, 0, q0, j);
        },
        DecodedView::Unrecognized => {
            lemma_unrecognized_is_no_encoding(s);
        },
    }
}

/// The collection decoder, exactly: the persisted file decodes to a
/// collection if and only if it is that collection's canonical encoding.
pub proof fn lemma_decode_recipes_exact(s: Seq<char>)
    ensures
        match spec_decode_recipes(s) {
            Some(rs) => s == recipes_json(rs) && ids_fit(rs),
            None => forall|rs: Seq<RecipeView>| ids_fit(rs) ==> s != recipes_json(rs),
        },
{
    assert(s.subrange(0, s.len() as int) =~= s);
    match spec_decode_recipes(s) {
        Some(_) => {
            let (rs0, j) = p_recipes(s, 0).unwrap();
            lemma_recipes_l2(s, 0, rs0, j);
        },
        None => {
            assert forall|rs: Seq<RecipeView>| ids_fit(rs) implies s != recipes_json(rs) by {
                if s == recipes_json(rs) {
                    lemma_recipes_roundtrip(rs);
                }
            }
        },
    }
}

} // verus!
