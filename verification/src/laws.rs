//! Proved laws of the parser: round-trip stability of canonical rendering,
//! fail-fast error ordering, precedence of the ambiguity error, and
//! insensitivity to whitespace.

use vstd::prelude::*;

use crate::cmd_arg::ErrorClass;
use crate::cmd_arg::TokenClass;
use crate::cmd_arg::classify;
use crate::cmd_arg::has_eq;
use crate::cmd_arg::has_sign;
use crate::cmd_arg::lemma_eq_index;
use crate::cmd_arg::render;
use crate::is_ws_char;
use crate::schema::FieldModel;
use crate::schema::ValueModel;
use crate::schema::accepted_value;
use crate::schema::default_values;
use crate::schema::first_match;
use crate::schema::lemma_tokens_wf;
use crate::schema::lemma_word_len;
use crate::schema::lemma_word_len_run;
use crate::schema::parse_result;
use crate::schema::run_tokens;
use crate::schema::tokens_of;
use crate::schema::word_len;

verus! {

/// Rendering inverts classification: a token that is not ambiguous renders
/// back to exactly itself.
pub proof fn lemma_render_classify(t: Seq<char>)
    requires
        !(classify(t) is Ambiguous),
    ensures
        render(classify(t)) == t,
{
    if has_sign(t) {
        assert(render(classify(t)) =~= t);
    } else if has_eq(t) {
        lemma_eq_index(t);
        assert(render(classify(t)) =~= t);
    } else {
        assert(render(classify(t)) =~= t);
    }
}

/// The tokens joined back into one input, separated by single spaces.
pub open spec fn join_tokens(ts: Seq<Seq<char>>) -> Seq<char>
    decreases ts.len(),
{
    if ts.len() == 0 {
        Seq::empty()
    } else if ts.len() == 1 {
        ts[0]
    } else {
        ts[0] + seq![' '] + join_tokens(ts.skip(1))
    }
}

/// Tokenizing a single-space join gives the tokens back, provided each is
/// non-empty and free of whitespace.
pub proof fn lemma_tokens_join(ts: Seq<Seq<char>>)
    requires
        forall|k: int| 0 <= k < ts.len() ==> (#[trigger] ts[k]).len() > 0,
        forall|k: int, j: int|
            0 <= k < ts.len() && 0 <= j < ts[k].len() ==> !is_ws_char(#[trigger] ts[k][j]),
    ensures
        tokens_of(join_tokens(ts)) == ts,
    decreases ts.len(),
{
    if ts.len() == 0 {
    } else if ts.len() == 1 {
        let w = ts[0];
        lemma_word_len_run(w, w.len() as int);
        assert(w.take(w.len() as int) =~= w);
        assert(w.skip(w.len() as int) =~= Seq::<char>::empty());
        assert(tokens_of(w) == seq![w.take(w.len() as int)] + tokens_of(w.skip(w.len() as int)));
        assert(tokens_of(w.skip(w.len() as int)) =~= Seq::<Seq<char>>::empty());
        assert(tokens_of(join_tokens(ts)) =~~= ts);
    } else {
        let w = ts[0];
        let s = join_tokens(ts);
        let rest = join_tokens(ts.skip(1));
        assert(s == w + seq![' '] + rest);
        assert(forall|j: int| 0 <= j < w.len() ==> s[j] == w[j]);
        assert(s[w.len() as int] == ' ');
        lemma_word_len_run(s, w.len() as int);
        assert(s.take(w.len() as int) =~= w);
        assert(s.skip(w.len() as int)[0] == ' ');
        assert(s.skip(w.len() as int).skip(1) =~= rest);
        assert(forall|k: int| 0 <= k < ts.skip(1).len() ==> ts.skip(1)[k] == ts[k + 1]);
        lemma_tokens_join(ts.skip(1));
        assert(tokens_of(s) == seq![s.take(w.len() as int)] + tokens_of(s.skip(w.len() as int)));
        assert(tokens_of(s.skip(w.len() as int)) == tokens_of(s.skip(w.len() as int).skip(1)));
        assert(tokens_of(s.skip(w.len() as int).skip(1)) == ts.skip(1));
        assert(tokens_of(s) =~~= ts);
    }
}

/// Round trip: after a successful parse, rendering every consumed token
/// back to canonical text and re-parsing the single-space joined text
/// yields the same record.
pub proof fn lemma_round_trip(fields: Seq<FieldModel>, s: Seq<char>)
    requires
        parse_result(fields, s) is Ok,
    ensures
        parse_result(
            fields,
            join_tokens(tokens_of(s).map_values(|t: Seq<char>| render(classify(t)))),
        ) == parse_result(fields, s),
{
    let ts = tokens_of(s);
    let rendered = ts.map_values(|t: Seq<char>| render(classify(t)));
    assert forall|k: int| 0 <= k < ts.len() implies #[trigger] rendered[k] == ts[k] by {
        assert(!(classify(ts[k]) is Ambiguous));
        lemma_render_classify(ts[k]);
    }
    assert(rendered =~= ts);
    lemma_tokens_wf(s);
    lemma_tokens_join(ts);
}

/// Feeding the classified tokens through the schema stops at the first
/// token that no field accepts and reports that token's canonical text.
proof fn lemma_run_tokens_first_err(
    fields: Seq<FieldModel>,
    rec: Seq<ValueModel>,
    cs: Seq<TokenClass>,
    i: int,
)
    requires
        0 <= i < cs.len(),
        first_match(fields, cs[i]) < 0,
        forall|k: int| 0 <= k < i ==> first_match(fields, #[trigger] cs[k]) >= 0,
    ensures
        run_tokens(fields, rec, cs) == Err::<Seq<ValueModel>, Seq<char>>(render(cs[i])),
    decreases i,
{
    if i > 0 {
        let rec2 = rec.update(first_match(fields, cs[0]), accepted_value(cs[0]));
        assert(forall|k: int| 0 <= k < cs.skip(1).len() ==> cs.skip(1)[k] == cs[k + 1]);
        lemma_run_tokens_first_err(fields, rec2, cs.skip(1), i - 1);
    }
}

/// Fail-fast ordering: when no token is ambiguous and several tokens are
/// accepted by no declared field, the reported error carries the first
/// such token in left-to-right order, never a later one.
pub proof fn lemma_fail_fast(fields: Seq<FieldModel>, s: Seq<char>, i: int, j: int)
    requires
        0 <= i < j < tokens_of(s).len(),
        forall|k: int|
            0 <= k < tokens_of(s).len() ==> !(classify(#[trigger] tokens_of(s)[k]) is Ambiguous),
        first_match(fields, classify(tokens_of(s)[i])) < 0,
        first_match(fields, classify(tokens_of(s)[j])) < 0,
        forall|k: int|
            0 <= k < i ==> first_match(fields, classify(#[trigger] tokens_of(s)[k])) >= 0,
    ensures
        parse_result(fields, s) == Err::<Seq<ValueModel>, ErrorClass>(
            ErrorClass::Unrecognized(render(classify(tokens_of(s)[i]))),
        ),
{
    let ts = tokens_of(s);
    let cs = ts.map_values(|t: Seq<char>| classify(t));
    assert forall|k: int| 0 <= k < i implies first_match(fields, #[trigger] cs[k]) >= 0 by {
        assert(cs[k] == classify(ts[k]));
    }
    lemma_run_tokens_first_err(fields, default_values(fields), cs, i);
}

/// Ambiguity precedence: an input holding any token with both a sign
/// prefix and an `=` fails with the ambiguity error, whatever the schema
/// declares and wherever the token stands.
pub proof fn lemma_ambiguity_precedence(fields: Seq<FieldModel>, s: Seq<char>, i: int)
    requires
        0 <= i < tokens_of(s).len(),
        classify(tokens_of(s)[i]) is Ambiguous,
    ensures
        parse_result(fields, s) == Err::<Seq<ValueModel>, ErrorClass>(ErrorClass::Unsupported),
{
    assert(exists|k: int|
        0 <= k < tokens_of(s).len() && classify(#[trigger] tokens_of(s)[k]) is Ambiguous);
}

/// Whitespace insensitivity: two inputs that split into the same tokens
/// parse to the same result.
pub proof fn lemma_whitespace_insensitive(fields: Seq<FieldModel>, s1: Seq<char>, s2: Seq<char>)
    requires
        tokens_of(s1) == tokens_of(s2),
    ensures
        parse_result(fields, s1) == parse_result(fields, s2),
{
}

/// Leading whitespace never changes the tokens.
pub proof fn lemma_ws_prefix(c: char, s: Seq<char>)
    requires
        is_ws_char(c),
    ensures
        tokens_of(seq![c] + s) == tokens_of(s),
{
    assert((seq![c] + s).skip(1) =~= s);
}

/// Trailing whitespace never changes the tokens.
pub proof fn lemma_ws_suffix(s: Seq<char>, c: char)
    requires
        is_ws_char(c),
    ensures
        tokens_of(s.push(c)) == tokens_of(s),
    decreases s.len(),
{
    if s.len() == 0 {
        assert(s.push(c)[0] == c);
        assert(s.push(c).skip(1) =~= Seq::<char>::empty());
        assert(tokens_of(s.push(c)) == tokens_of(s.push(c).skip(1)));
        assert(tokens_of(s.push(c).skip(1)) =~= Seq::<Seq<char>>::empty());
        assert(tokens_of(s) =~= Seq::<Seq<char>>::empty());
    } else if is_ws_char(s[0]) {
        assert(s.push(c)[0] == s[0]);
        assert(s.push(c).skip(1) =~= s.skip(1).push(c));
        lemma_ws_suffix(s.skip(1), c);
        assert(tokens_of(s.push(c)) == tokens_of(s.push(c).skip(1)));
        assert(tokens_of(s) == tokens_of(s.skip(1)));
    } else {
        lemma_word_len(s);
        let w = word_len(s) as int;
        assert(forall|j: int| 0 <= j < w ==> s.push(c)[j] == s[j]);
        if w < s.len() {
            assert(is_ws_char(s.push(c)[w]));
        } else {
            assert(s.push(c)[w] == c);
        }
        lemma_word_len_run(s.push(c), w);
        assert(s.push(c)[0] == s[0]);
        assert(s.push(c).take(w) =~= s.take(w));
        assert(s.push(c).skip(w) =~= s.skip(w).push(c));
        lemma_ws_suffix(s.skip(w), c);
        assert(tokens_of(s.push(c)) == seq![s.push(c).take(w)] + tokens_of(s.push(c).skip(w)));
        assert(tokens_of(s.push(c).skip(w)) == tokens_of(s.skip(w)));
        assert(tokens_of(s) == seq![s.take(w)] + tokens_of(s.skip(w)));
        assert(tokens_of(s.push(c)) =~~= tokens_of(s));
    }
}

/// Lengthening a whitespace run never changes the tokens: one more
/// whitespace character inserted right before a whitespace character
/// keeps every token.
pub proof fn lemma_ws_run_insert(s: Seq<char>, i: int, c: char)
    requires
        is_ws_char(c),
        0 <= i < s.len(),
        is_ws_char(s[i]),
    ensures
        tokens_of(s.insert(i, c)) == tokens_of(s),
    decreases s.len(),
{
    let t = s.insert(i, c);
    if i == 0 {
        assert(t[0] == c);
        assert(tokens_of(t) == tokens_of(t.skip(1)));
        assert(t.skip(1) =~= s);
    } else if is_ws_char(s[0]) {
        assert(t[0] == s[0]);
        assert(tokens_of(t) == tokens_of(t.skip(1)));
        assert(tokens_of(s) == tokens_of(s.skip(1)));
        assert(t.skip(1) =~= s.skip(1).insert(i - 1, c));
        assert(s.skip(1)[i - 1] == s[i]);
        lemma_ws_run_insert(s.skip(1), i - 1, c);
    } else {
        lemma_word_len(s);
        let w = word_len(s) as int;
        assert(w <= i) by {
            if i < w {
                assert(!is_ws_char(s[i]));
            }
        }
        assert(forall|j: int| 0 <= j < w ==> t[j] == s[j]);
        if i == w {
            assert(t[w] == c);
        } else {
            assert(t[w] == s[w]);
            assert(is_ws_char(s[w]));
        }
        lemma_word_len_run(t, w);
        assert(t.take(w) =~= s.take(w));
        assert(t.skip(w) =~= s.skip(w).insert(i - w, c));
        assert(s.skip(w)[i - w] == s[i]);
        lemma_ws_run_insert(s.skip(w), i - w, c);
        assert(tokens_of(t) == seq![t.take(w)] + tokens_of(t.skip(w)));
        assert(tokens_of(t.skip(w)) == tokens_of(s.skip(w)));
        assert(tokens_of(s) == seq![s.take(w)] + tokens_of(s.skip(w)));
        assert(tokens_of(t) =~~= tokens_of(s));
    }
}

} // verus!
