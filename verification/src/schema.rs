//! The schema-driven validator.
//!
//! An input string is split on ASCII whitespace into tokens, every token is
//! classified, and the classified tokens are validated, in input order,
//! against the declared field schema: the first declared field that accepts
//! a token's name and shape receives its value. A token no field accepts
//! aborts the parse with the token rendered back in canonical text.

use vstd::prelude::*;
use vstd::string::*;
use vstd::pervasive::VecAdditionalExecFns;

use crate::is_ws_char;
use crate::cmd_arg::Arg;
use crate::cmd_arg::CmdArgError;
use crate::cmd_arg::ErrorClass;
use crate::cmd_arg::TokenClass;
use crate::cmd_arg::classify;
use crate::cmd_arg::render;

verus! {

/// Length of the leading run of non-whitespace characters.
pub open spec fn word_len(s: Seq<char>) -> nat
    decreases s.len(),
{
    if s.len() == 0 || is_ws_char(s[0]) {
        0
    } else {
        1 + word_len(s.skip(1))
    }
}

/// The leading word is a maximal non-whitespace run inside the string.
pub proof fn lemma_word_len(s: Seq<char>)
    ensures
        word_len(s) <= s.len(),
        forall|j: int| 0 <= j < word_len(s) ==> !is_ws_char(s[j]),
        word_len(s) < s.len() ==> is_ws_char(s[word_len(s) as int]),
    decreases s.len(),
{
    if s.len() > 0 && !is_ws_char(s[0]) {
        lemma_word_len(s.skip(1));
        assert(forall|j: int| 1 <= j < word_len(s) ==> s[j] == s.skip(1)[j - 1]);
    }
}

/// A run of non-whitespace characters, ended by the string's end or by a
/// whitespace character, is the leading word.
pub proof fn lemma_word_len_run(s: Seq<char>, k: int)
    requires
        0 <= k <= s.len(),
        forall|j: int| 0 <= j < k ==> !is_ws_char(s[j]),
        k == s.len() || is_ws_char(s[k]),
    ensures
        word_len(s) == k,
{
    lemma_word_len(s);
    let w = word_len(s) as int;
    if w < k {
        assert(!is_ws_char(s[w]));
    }
    if k < w {
        assert(!is_ws_char(s[k]));
    }
}

/// The tokens of the input: the maximal non-whitespace runs, in order.
pub open spec fn tokens_of(s: Seq<char>) -> Seq<Seq<char>>
    decreases s.len(),
        via tokens_of_decreases
{
    if s.len() == 0 {
        Seq::empty()
    } else if is_ws_char(s[0]) {
        tokens_of(s.skip(1))
    } else {
        seq![s.take(word_len(s) as int)] + tokens_of(s.skip(word_len(s) as int))
    }
}

#[via_fn]
proof fn tokens_of_decreases(s: Seq<char>) {
    if s.len() > 0 && !is_ws_char(s[0]) {
        lemma_word_len(s);
    }
}

/// Every token is non-empty and free of whitespace.
pub proof fn lemma_tokens_wf(s: Seq<char>)
    ensures
        forall|k: int| 0 <= k < tokens_of(s).len() ==> #[trigger] tokens_of(s)[k].len() > 0,
        forall|k: int, j: int|
            0 <= k < tokens_of(s).len() && 0 <= j < tokens_of(s)[k].len() ==> !is_ws_char(
                #[trigger] tokens_of(s)[k][j],
            ),
    decreases s.len(),
{
    if s.len() == 0 {
    } else if is_ws_char(s[0]) {
        lemma_tokens_wf(s.skip(1));
        assert(tokens_of(s) == tokens_of(s.skip(1)));
    } else {
        lemma_word_len(s);
        let w = word_len(s) as int;
        let rest = tokens_of(s.skip(w));
        lemma_tokens_wf(s.skip(w));
        assert(tokens_of(s) == seq![s.take(w)] + rest);
        assert forall|k: int| 0 <= k < tokens_of(s).len() implies #[trigger] tokens_of(
            s,
        )[k].len() > 0 by {
            if k == 0 {
                assert(tokens_of(s)[0] == s.take(w));
            } else {
                assert(tokens_of(s)[k] == rest[k - 1]);
            }
        }
        assert forall|k: int, j: int|
            0 <= k < tokens_of(s).len() && 0 <= j < tokens_of(s)[k].len() implies !is_ws_char(
            #[trigger] tokens_of(s)[k][j],
        ) by {
            if k == 0 {
                assert(tokens_of(s)[0] == s.take(w));
                assert(s.take(w)[j] == s[j]);
            } else {
                assert(tokens_of(s)[k] == rest[k - 1]);
            }
        }
    }
}

/// Whether this character separates tokens.
fn ws(c: char) -> (r: bool)
    ensures
        r == is_ws_char(c),
{
    c == ' ' || c == '\t' || c == '\n' || c == '\r' || c == '\x0c'
}

/// Split the input on ASCII whitespace into its non-empty tokens.
fn tokenize(input: &str) -> (toks: Vec<String>)
    ensures
        toks.deep_view() == tokens_of(input@),
{
    let n = input.unicode_len();
    let mut toks: Vec<String> = Vec::new();
    let mut i: usize = 0;
    proof {
        assert(input@.skip(0) =~= input@);
        assert(toks.deep_view() =~= Seq::<Seq<char>>::empty());
        assert(toks.deep_view() + tokens_of(input@) =~= tokens_of(input@));
    }
    while i < n
        invariant
            i <= n,
            n == input@.len(),
            tokens_of(input@) == toks.deep_view() + tokens_of(input@.skip(i as int)),
        decreases n - i,
    {
        let c = input.get_char(i);
        if ws(c) {
            proof {
                assert(input@.skip(i as int).skip(1) =~= input@.skip(i + 1));
            }
            i += 1;
        } else {
            let start = i;
            let mut j = i + 1;
            while j < n && !ws(input.get_char(j))
                invariant
                    start < j <= n,
                    n == input@.len(),
                    forall|m: int| start <= m < j ==> !is_ws_char(input@[m]),
                decreases n - j,
            {
                j += 1;
            }
            let word = String::from_str(input.substring_char(start, j));
            proof {
                let t = input@.skip(start as int);
                assert(forall|m: int|
                    0 <= m < j - start ==> t[m] == input@[start + m] && !is_ws_char(t[m]));
                if j < n {
                    assert(is_ws_char(t[j - start]));
                }
                lemma_word_len_run(t, j - start);
                assert(t.take(j - start) =~= input@.subrange(start as int, j as int));
                assert(t.skip(j - start) =~= input@.skip(j as int));
                assert(tokens_of(t) == seq![word@] + tokens_of(input@.skip(j as int)));
            }
            let ghost prev_toks = toks.deep_view();
            toks.push(word);
            proof {
                assert(toks.deep_view() =~= prev_toks.push(word@));
                assert(prev_toks.push(word@) + tokens_of(input@.skip(j as int)) =~= prev_toks + (
                seq![word@] + tokens_of(input@.skip(j as int))));
            }
            i = j;
        }
    }
    proof {
        assert(input@.skip(n as int) =~= Seq::<char>::empty());
        assert(toks.deep_view() + tokens_of(input@.skip(n as int)) =~= toks.deep_view());
    }
    toks
}

/// The shape of one declared output field.
#[derive(Clone, Copy)]
pub enum FieldKind {
    /// A presence-only boolean, set by a bare token of the field's name.
    BoolPresence,
    /// An optional boolean, set by a `+name` / `-name` toggle token.
    OptionalBoolToggle,
    /// An optional string, set by a `name=value` token.
    OptionalKeyValue,
}

/// One declared field: its name and accepted shape, at the specification
/// level.
pub struct FieldModel {
    pub name: Seq<char>,
    pub kind: FieldKind,
}

/// One declared field of a record schema.
pub struct FieldSchema {
    name: String,
    kind: FieldKind,
}

impl View for FieldSchema {
    type V = FieldModel;

    closed spec fn view(&self) -> FieldModel {
        FieldModel { name: self.name@, kind: self.kind }
    }
}

impl DeepView for FieldSchema {
    type V = FieldModel;

    open spec fn deep_view(&self) -> FieldModel {
        self.view()
    }
}

impl FieldSchema {
    /// Declare a field of the given name and shape.
    pub fn new(name: String, kind: FieldKind) -> (r: FieldSchema)
        ensures
            r@ == (FieldModel { name: name@, kind }),
    {
        FieldSchema { name, kind }
    }
}

/// The state of one output field, at the specification level.
pub enum ValueModel {
    Flag(bool),
    Toggle(Option<bool>),
    Text(Option<Seq<char>>),
}

/// The state of one output field: unset fields keep their default.
#[derive(Debug)]
pub enum FieldValue {
    /// A presence-only boolean: `false` until its bare token appears.
    Flag(bool),
    /// An optional toggle boolean: `None` until its toggle token appears.
    Toggle(Option<bool>),
    /// An optional string: `None` until its key/value token appears.
    Text(Option<String>),
}

impl View for FieldValue {
    type V = ValueModel;

    open spec fn view(&self) -> ValueModel {
        match self {
            FieldValue::Flag(b) => ValueModel::Flag(*b),
            FieldValue::Toggle(o) => ValueModel::Toggle(*o),
            FieldValue::Text(o) => ValueModel::Text(
                match o {
                    Some(s) => Some(s@),
                    None => None,
                },
            ),
        }
    }
}

impl DeepView for FieldValue {
    type V = ValueModel;

    open spec fn deep_view(&self) -> ValueModel {
        self.view()
    }
}

/// The default state of a field of the given kind.
pub open spec fn default_value(kind: FieldKind) -> ValueModel {
    match kind {
        FieldKind::BoolPresence => ValueModel::Flag(false),
        FieldKind::OptionalBoolToggle => ValueModel::Toggle(None),
        FieldKind::OptionalKeyValue => ValueModel::Text(None),
    }
}

/// The default state of every declared field.
pub open spec fn default_values(fields: Seq<FieldModel>) -> Seq<ValueModel> {
    fields.map_values(|f: FieldModel| default_value(f.kind))
}

/// Whether a declared field accepts a classified token: the names must be
/// equal and the token's shape must fit the field's kind.
pub open spec fn field_accepts(f: FieldModel, c: TokenClass) -> bool {
    match f.kind {
        FieldKind::BoolPresence => c == TokenClass::Bare(f.name),
        FieldKind::OptionalBoolToggle => c matches TokenClass::Toggle(_, n) && n == f.name,
        FieldKind::OptionalKeyValue => c matches TokenClass::KeyValue(n, _) && n == f.name,
    }
}

/// The state an accepting field is set to: `true` for a bare token, the
/// toggle's state, or the pair's value text.
pub open spec fn accepted_value(c: TokenClass) -> ValueModel {
    match c {
        TokenClass::Bare(_) => ValueModel::Flag(true),
        TokenClass::Toggle(enabled, _) => ValueModel::Toggle(Some(enabled)),
        TokenClass::KeyValue(_, value) => ValueModel::Text(Some(value)),
        TokenClass::Ambiguous => ValueModel::Flag(true),
    }
}

/// Index of the first declared field that accepts the token, or -1.
pub open spec fn first_match(fields: Seq<FieldModel>, c: TokenClass) -> int
    decreases fields.len(),
{
    if fields.len() == 0 {
        -1
    } else if field_accepts(fields[0], c) {
        0
    } else if first_match(fields.skip(1), c) < 0 {
        -1
    } else {
        1 + first_match(fields.skip(1), c)
    }
}

/// The first match is an accepting field, and no field before it accepts;
/// -1 means no field accepts.
pub proof fn lemma_first_match(fields: Seq<FieldModel>, c: TokenClass)
    ensures
        first_match(fields, c) == -1 ==> forall|m: int|
            0 <= m < fields.len() ==> !field_accepts(#[trigger] fields[m], c),
        first_match(fields, c) >= 0 ==> 0 <= first_match(fields, c) < fields.len()
            && field_accepts(fields[first_match(fields, c)], c) && forall|m: int|
            0 <= m < first_match(fields, c) ==> !field_accepts(#[trigger] fields[m], c),
    decreases fields.len(),
{
    if fields.len() > 0 && !field_accepts(fields[0], c) {
        lemma_first_match(fields.skip(1), c);
        assert(forall|m: int| 1 <= m < fields.len() ==> fields[m] == fields.skip(1)[m - 1]);
    }
}

/// Feed the classified tokens, in order, through the schema: each token is
/// given to the first field that accepts it; a token no field accepts stops
/// the run with the token's canonical text.
pub open spec fn run_tokens(
    fields: Seq<FieldModel>,
    rec: Seq<ValueModel>,
    cs: Seq<TokenClass>,
) -> Result<Seq<ValueModel>, Seq<char>>
    decreases cs.len(),
{
    if cs.len() == 0 {
        Ok(rec)
    } else {
        let i = first_match(fields, cs[0]);
        if i >= 0 {
            run_tokens(fields, rec.update(i, accepted_value(cs[0])), cs.skip(1))
        } else {
            Err(render(cs[0]))
        }
    }
}

/// What a parse of the input against the declared fields returns: the
/// final field states, or the first rejection. Classification of every
/// token comes first: any ambiguous token fails the parse before any
/// schema check.
pub open spec fn parse_result(fields: Seq<FieldModel>, s: Seq<char>) -> Result<
    Seq<ValueModel>,
    ErrorClass,
> {
    let toks = tokens_of(s);
    if exists|k: int| 0 <= k < toks.len() && classify(#[trigger] toks[k]) is Ambiguous {
        Err(ErrorClass::Unsupported)
    } else {
        match run_tokens(fields, default_values(fields), toks.map_values(|t: Seq<char>| classify(t))) {
            Ok(rec) => Ok(rec),
            Err(t) => Err(ErrorClass::Unrecognized(t)),
        }
    }
}

/// Whether a field state has the shape its declared kind calls for.
pub open spec fn value_fits(kind: FieldKind, v: ValueModel) -> bool {
    match kind {
        FieldKind::BoolPresence => v is Flag,
        FieldKind::OptionalBoolToggle => v is Toggle,
        FieldKind::OptionalKeyValue => v is Text,
    }
}

/// A record is well-formed for a schema when it holds one state per
/// declared field, each of the declared shape.
pub open spec fn record_wf(fields: Seq<FieldModel>, rec: Seq<ValueModel>) -> bool {
    rec.len() == fields.len() && forall|i: int|
        0 <= i < fields.len() ==> value_fits(fields[i].kind, #[trigger] rec[i])
}

/// Feeding tokens through the schema preserves well-formedness.
proof fn lemma_run_tokens_wf(fields: Seq<FieldModel>, rec: Seq<ValueModel>, cs: Seq<TokenClass>)
    requires
        record_wf(fields, rec),
        run_tokens(fields, rec, cs) is Ok,
    ensures
        record_wf(fields, run_tokens(fields, rec, cs)->Ok_0),
    decreases cs.len(),
{
    if cs.len() > 0 {
        let i = first_match(fields, cs[0]);
        lemma_first_match(fields, cs[0]);
        let rec2 = rec.update(i, accepted_value(cs[0]));
        assert(record_wf(fields, rec2));
        lemma_run_tokens_wf(fields, rec2, cs.skip(1));
    }
}

/// A successful parse yields a well-formed record: one state per declared
/// field, in declaration order, each of the declared shape.
pub proof fn lemma_parse_wf(fields: Seq<FieldModel>, s: Seq<char>)
    requires
        parse_result(fields, s) is Ok,
    ensures
        record_wf(fields, parse_result(fields, s)->Ok_0),
{
    assert(record_wf(fields, default_values(fields)));
    let cs = tokens_of(s).map_values(|t: Seq<char>| classify(t));
    lemma_run_tokens_wf(fields, default_values(fields), cs);
}

/// The typed output of a successful parse: one state per declared field,
/// in declaration order.
#[derive(Debug)]
pub struct Record {
    values: Vec<FieldValue>,
}

impl View for Record {
    type V = Seq<ValueModel>;

    closed spec fn view(&self) -> Seq<ValueModel> {
        self.values.deep_view()
    }
}

impl Record {
    /// The number of declared fields.
    pub fn len(&self) -> (r: usize)
        ensures
            r == self@.len(),
    {
        self.values.len()
    }

    /// The state of the field at `i`, in declaration order.
    pub fn value(&self, i: usize) -> (r: &FieldValue)
        requires
            i < self@.len(),
        ensures
            r@ == self@[i as int],
    {
        &self.values[i]
    }
}

/// The state the field is set to if it accepts the token, or `None`.
fn value_for(arg: &Arg, field: &FieldSchema) -> (r: Option<FieldValue>)
    ensures
        match r {
            Some(v) => field_accepts(field@, arg@) && v@ == accepted_value(arg@),
            None => !field_accepts(field@, arg@),
        },
{
    match field.kind {
        FieldKind::BoolPresence => {
            if arg.matches_bare(&field.name) {
                Some(FieldValue::Flag(true))
            } else {
                None
            }
        },
        FieldKind::OptionalBoolToggle => {
            match arg.matches_toggle(&field.name) {
                Some(enabled) => Some(FieldValue::Toggle(Some(enabled))),
                None => None,
            }
        },
        FieldKind::OptionalKeyValue => {
            match arg.matches_kv(&field.name) {
                Some(value) => Some(FieldValue::Text(Some(value))),
                None => None,
            }
        },
    }
}

/// A record schema: its declared fields, in order, and its caller-declared
/// help text.
pub struct Schema {
    help: String,
    fields: Vec<FieldSchema>,
}

impl View for Schema {
    type V = Seq<FieldModel>;

    closed spec fn view(&self) -> Seq<FieldModel> {
        self.fields.deep_view()
    }
}

impl Schema {
    /// The schema's help text, at the specification level.
    pub closed spec fn spec_help(&self) -> Seq<char> {
        self.help@
    }

    /// Declare a schema from its help text and its fields, in order.
    pub fn new(help: String, fields: Vec<FieldSchema>) -> (r: Schema)
        ensures
            r@ == fields.deep_view(),
            r.spec_help() == help@,
    {
        Schema { help, fields }
    }

    /// The caller-declared help text, verbatim.
    pub fn help(&self) -> (r: &str)
        ensures
            r@ == self.spec_help(),
    {
        self.help.as_str()
    }

    /// Parse the input against this schema: split it on whitespace,
    /// classify every token, then feed each classified token to the first
    /// declared field that accepts it. The first token that fails either
    /// step decides the error.
    pub fn parse(&self, input: &str) -> (r: Result<Record, CmdArgError>)
        ensures
            match r {
                Ok(rec) => parse_result(self@, input@) == Ok::<Seq<ValueModel>, ErrorClass>(rec@)
                    && record_wf(self@, rec@),
                Err(e) => parse_result(self@, input@) == Err::<Seq<ValueModel>, ErrorClass>(e@),
            },
    {
        let toks = tokenize(input);
        let ghost toksv = toks.deep_view();
        let mut args: Vec<Arg> = Vec::new();
        let mut k: usize = 0;
        while k < toks.len()
            invariant
                k == args.len() <= toks.len(),
                toksv == toks.deep_view(),
                toksv == tokens_of(input@),
                forall|m: int|
                    0 <= m < k ==> #[trigger] args@[m]@ == classify(toksv[m]) && !(classify(
                        toksv[m],
                    ) is Ambiguous),
            decreases toks.len() - k,
        {
            match Arg::parse(toks[k].as_str()) {
                Ok(arg) => {
                    args.push(arg);
                },
                Err(e) => {
                    proof {
                        assert(exists|m: int|
                            0 <= m < tokens_of(input@).len() && classify(
                                #[trigger] tokens_of(input@)[m],
                            ) is Ambiguous) by {
                            assert(classify(tokens_of(input@)[k as int]) is Ambiguous);
                        }
                        assert(parse_result(self@, input@) == Err::<Seq<ValueModel>, ErrorClass>(
                            ErrorClass::Unsupported,
                        ));
                    }
                    return Err(e);
                },
            }
            k += 1;
        }
        let ghost fieldsv = self@;
        let ghost classes = Seq::new(toksv.len(), |m: int| classify(toksv[m]));
        proof {
            assert(classes =~= tokens_of(input@).map_values(|t: Seq<char>| classify(t)));
        }
        let mut values: Vec<FieldValue> = Vec::new();
        let mut f: usize = 0;
        while f < self.fields.len()
            invariant
                f == values.len() <= self.fields.len(),
                fieldsv == self@,
                values.deep_view() =~= default_values(fieldsv).take(f as int),
            decreases self.fields.len() - f,
        {
            let ghost prev = values.deep_view();
            let v = match self.fields[f].kind {
                FieldKind::BoolPresence => FieldValue::Flag(false),
                FieldKind::OptionalBoolToggle => FieldValue::Toggle(None),
                FieldKind::OptionalKeyValue => FieldValue::Text(None),
            };
            values.push(v);
            proof {
                assert(values.deep_view() =~= prev.push(v@));
                assert(values.deep_view() =~= default_values(fieldsv).take(f + 1));
            }
            f += 1;
        }
        proof {
            assert(values.deep_view() =~= default_values(fieldsv));
            assert(classes.skip(0) =~= classes);
        }
        let mut idx: usize = 0;
        while idx < args.len()
            invariant
                idx <= args.len() == toksv.len(),
                toksv == tokens_of(input@),
                fieldsv == self@,
                values.len() == self.fields.len(),
                classes == toksv.map_values(|t: Seq<char>| classify(t)),
                forall|m: int|
                    0 <= m < args.len() ==> #[trigger] args@[m]@ == classify(toksv[m]) && !(
                    classify(toksv[m]) is Ambiguous),
                run_tokens(fieldsv, default_values(fieldsv), classes) == run_tokens(
                    fieldsv,
                    values.deep_view(),
                    classes.skip(idx as int),
                ),
            decreases args.len() - idx,
        {
            let ghost c = classes[idx as int];
            let ghost prev = values.deep_view();
            let mut f: usize = 0;
            let mut applied = false;
            while f < self.fields.len() && !applied
                invariant
                    f <= self.fields.len() == values.len(),
                    fieldsv == self@,
                    idx < args.len(),
                    c == args@[idx as int]@,
                    !applied ==> values.deep_view() == prev && forall|m: int|
                        0 <= m < f ==> !field_accepts(#[trigger] fieldsv[m], c),
                    applied ==> 0 < f <= fieldsv.len() && field_accepts(fieldsv[f - 1], c) && (
                    forall|m: int| 0 <= m < f - 1 ==> !field_accepts(#[trigger] fieldsv[m], c))
                        && values.deep_view() == prev.update(f - 1, accepted_value(c)),
                decreases self.fields.len() - f,
            {
                match value_for(&args[idx], &self.fields[f]) {
                    Some(v) => {
                        let ghost before = values.deep_view();
                        values.set(f, v);
                        proof {
                            assert(values.deep_view() =~= before.update(f as int, v@));
                        }
                        applied = true;
                    },
                    None => {
                    },
                }
                f += 1;
            }
            if !applied {
                proof {
                    assert forall|m: int| 0 <= m < tokens_of(input@).len() implies !(classify(
                        #[trigger] tokens_of(input@)[m],
                    ) is Ambiguous) by {
                        assert(args@[m]@ == classify(toksv[m]));
                    }
                    lemma_first_match(fieldsv, c);
                    assert(first_match(fieldsv, c) < 0) by {
                        if first_match(fieldsv, c) >= 0 {
                            assert(!field_accepts(fieldsv[first_match(fieldsv, c)], c));
                        }
                    }
                    assert(classes.skip(idx as int)[0] == c);
                    assert(run_tokens(fieldsv, values.deep_view(), classes.skip(idx as int))
                        == Err::<Seq<ValueModel>, Seq<char>>(render(c)));
                    assert(parse_result(self@, input@) == Err::<Seq<ValueModel>, ErrorClass>(
                        ErrorClass::Unrecognized(render(c)),
                    ));
                }
                let arg = &args[idx];
                return Err(CmdArgError::UnrecognizedOrIllFormed(arg.to_text()));
            }
            proof {
                let f0 = f - 1;
                lemma_first_match(fieldsv, c);
                assert(first_match(fieldsv, c) == f0) by {
                    let i = first_match(fieldsv, c);
                    if i < 0 {
                        assert(!field_accepts(fieldsv[f0], c));
                    } else if i < f0 {
                        assert(!field_accepts(fieldsv[i], c));
                    } else if f0 < i {
                        assert(!field_accepts(fieldsv[f0], c));
                    }
                }
                assert(classes.skip(idx as int)[0] == c);
                assert(classes.skip(idx as int).skip(1) =~= classes.skip(idx + 1));
                assert(run_tokens(fieldsv, prev, classes.skip(idx as int)) == run_tokens(
                    fieldsv,
                    prev.update(f0, accepted_value(c)),
                    classes.skip(idx + 1),
                ));
            }
            idx += 1;
        }
        proof {
            assert forall|m: int| 0 <= m < tokens_of(input@).len() implies !(classify(
                #[trigger] tokens_of(input@)[m],
            ) is Ambiguous) by {
                assert(args@[m]@ == classify(toksv[m]));
            }
            assert(classes.skip(args@.len() as int) =~= Seq::<TokenClass>::empty());
            assert(run_tokens(fieldsv, default_values(fieldsv), classes) == Ok::<
                Seq<ValueModel>,
                Seq<char>,
            >(values.deep_view()));
            assert(parse_result(self@, input@) == Ok::<Seq<ValueModel>, ErrorClass>(
                values.deep_view(),
            ));
            lemma_parse_wf(self@, input@);
        }
        Ok(Record { values })
    }
}

} // verus!

