//! Classification of one whitespace-delimited token.
//!
//! A token is exactly one of: a bare name, a boolean toggle (`+name` /
//! `-name`), or a key/value pair (`name=value`). A token that carries both
//! a sign prefix and an `=` is ambiguous and is always rejected.

use vstd::prelude::*;
use vstd::string::*;

use crate::is_sign_char;

verus! {

/// The classification of one token, at the specification level.
pub enum TokenClass {
    /// A name with neither sign prefix nor `=`.
    Bare(Seq<char>),
    /// A sign-prefixed name: `true` for `+`, `false` for `-`.
    Toggle(bool, Seq<char>),
    /// A `name=value` pair, split at the first `=`.
    KeyValue(Seq<char>, Seq<char>),
    /// Both a sign prefix and an `=`: never valid.
    Ambiguous,
}

/// Whether the token contains an `=` separator.
pub open spec fn has_eq(t: Seq<char>) -> bool {
    exists|i: int| 0 <= i < t.len() && t[i] == '='
}

/// Index of the first `=` in the token.
pub open spec fn eq_index(t: Seq<char>) -> int
    decreases t.len(),
{
    if t.len() == 0 {
        0
    } else if t[0] == '=' {
        0
    } else {
        1 + eq_index(t.skip(1))
    }
}

/// The first `=` is inside the token, holds `=`, and nothing before it does.
pub proof fn lemma_eq_index(t: Seq<char>)
    requires
        has_eq(t),
    ensures
        0 <= eq_index(t) < t.len(),
        t[eq_index(t)] == '=',
        forall|j: int| 0 <= j < eq_index(t) ==> t[j] != '=',
    decreases t.len(),
{
    if t.len() > 0 && t[0] != '=' {
        let s = t.skip(1);
        assert(has_eq(s)) by {
            let i = choose|i: int| 0 <= i < t.len() && t[i] == '=';
            assert(s[i - 1] == '=');
        }
        lemma_eq_index(s);
        assert(forall|j: int| 1 <= j < eq_index(t) ==> t[j] == s[j - 1]);
    }
}

/// Whether the token starts with a `+` or `-` sign.
pub open spec fn has_sign(t: Seq<char>) -> bool {
    t.len() > 0 && is_sign_char(t[0])
}

/// The unique classification of a token: the four combinations of
/// {sign present/absent} x {`=` present/absent}.
pub open spec fn classify(t: Seq<char>) -> TokenClass {
    if has_sign(t) && has_eq(t) {
        TokenClass::Ambiguous
    } else if has_sign(t) {
        TokenClass::Toggle(t[0] == '+', t.skip(1))
    } else if has_eq(t) {
        TokenClass::KeyValue(t.take(eq_index(t)), t.skip(eq_index(t) + 1))
    } else {
        TokenClass::Bare(t)
    }
}

/// The canonical text of a classified token: what a user would type.
pub open spec fn render(c: TokenClass) -> Seq<char> {
    match c {
        TokenClass::Bare(name) => name,
        TokenClass::Toggle(enabled, name) => seq![if enabled { '+' } else { '-' }] + name,
        TokenClass::KeyValue(name, value) => name + seq!['='] + value,
        TokenClass::Ambiguous => Seq::empty(),
    }
}

/// The payload of a classified token: a toggle state or a value string.
pub enum ArgValue {
    /// `-opt`, `+opt`
    Bool(bool),
    /// `arg=abc`
    KV(String),
}

/// One classified token: its name and, unless bare, its payload.
pub struct Arg {
    name: String,
    value: Option<ArgValue>,
}

impl View for Arg {
    type V = TokenClass;

    closed spec fn view(&self) -> TokenClass {
        match self.value {
            Some(ArgValue::Bool(enabled)) => TokenClass::Toggle(enabled, self.name@),
            Some(ArgValue::KV(value)) => TokenClass::KeyValue(self.name@, value@),
            None => TokenClass::Bare(self.name@),
        }
    }
}

/// Why a parse was rejected, at the specification level.
pub enum ErrorClass {
    /// The rendered text of the first token no schema field accepted.
    Unrecognized(Seq<char>),
    /// Some token carried both a sign prefix and an `=`.
    Unsupported,
}

/// A rejected parse: either a token matched no declared field, or a token
/// was ambiguous (sign prefix together with `=`).
#[derive(Debug)]
pub enum CmdArgError {
    /// The token, rendered canonically, matched no declared field.
    UnrecognizedOrIllFormed(String),
    /// A `+`/`-` option with an `=value` is not supported.
    UnsupportedBoolKVOption,
}

impl View for CmdArgError {
    type V = ErrorClass;

    open spec fn view(&self) -> ErrorClass {
        match self {
            CmdArgError::UnrecognizedOrIllFormed(t) => ErrorClass::Unrecognized(t@),
            CmdArgError::UnsupportedBoolKVOption => ErrorClass::Unsupported,
        }
    }
}

impl CmdArgError {
    /// A human-readable description of the error.
    pub fn message(&self) -> (r: String)
        ensures
            match self {
                CmdArgError::UnrecognizedOrIllFormed(t) => r@ == "unrecognized or ill-formed argument: "@
                    + t@,
                CmdArgError::UnsupportedBoolKVOption => r@
                    == "+/-option with =value is not supported yet"@,
            },
    {
        match self {
            CmdArgError::UnrecognizedOrIllFormed(t) => {
                let mut m = String::from_str("unrecognized or ill-formed argument: ");
                m.append(t.as_str());
                m
            },
            CmdArgError::UnsupportedBoolKVOption => {
                String::from_str("+/-option with =value is not supported yet")
            },
        }
    }
}

impl Arg {
    /// Classify one token: exactly one of bare, toggle or key/value, or the
    /// ambiguous-token error.
    pub fn parse(input: &str) -> (r: Result<Arg, CmdArgError>)
        ensures
            match r {
                Ok(arg) => arg@ == classify(input@) && !(classify(input@) is Ambiguous),
                Err(e) => classify(input@) is Ambiguous && e is UnsupportedBoolKVOption,
            },
    {
        let n = input.unicode_len();
        let sign = n > 0 && {
            let c0 = input.get_char(0);
            c0 == '+' || c0 == '-'
        };
        let mut eq_at: Option<usize> = None;
        let mut i: usize = 0;
        while i < n && eq_at.is_none()
            invariant
                0 <= i <= n,
                n == input@.len(),
                match eq_at {
                    Some(k) => k == i && i < n && input@[k as int] == '=' && forall|j: int|
                        0 <= j < k ==> input@[j] != '=',
                    None => forall|j: int| 0 <= j < i ==> input@[j] != '=',
                },
            decreases n - i, (if eq_at.is_none() { 1int } else { 0int }),
        {
            if input.get_char(i) == '=' {
                eq_at = Some(i);
            } else {
                i += 1;
            }
        }
        proof {
            match eq_at {
                Some(k) => {
                    assert(has_eq(input@));
                    lemma_eq_index(input@);
                    let e = eq_index(input@);
                    if e < k as int {
                        assert(input@[e] != '=');
                    }
                    if (k as int) < e {
                        assert(input@[k as int] != '=');
                    }
                    assert(e == k as int);
                },
                None => {
                    assert(!has_eq(input@));
                },
            }
        }
        match (sign, eq_at) {
            (false, Some(k)) => {
                let name = input.substring_char(0, k);
                let value = input.substring_char(k + 1, n);
                let arg = Arg {
                    name: String::from_str(name),
                    value: Some(ArgValue::KV(String::from_str(value))),
                };
                proof {
                    assert(arg@->KeyValue_0 =~= input@.take(eq_index(input@)));
                    assert(arg@->KeyValue_1 =~= input@.skip(eq_index(input@) + 1));
                }
                Ok(arg)
            },
            (true, None) => {
                let enabled = input.get_char(0) == '+';
                let name = input.substring_char(1, n);
                let arg = Arg { name: String::from_str(name), value: Some(ArgValue::Bool(enabled)) };
                proof {
                    assert(arg@->Toggle_1 =~= input@.skip(1));
                }
                Ok(arg)
            },
            (true, Some(_)) => Err(CmdArgError::UnsupportedBoolKVOption),
            (false, None) => {
                let arg = Arg { name: String::from_str(input), value: None };
                Ok(arg)
            },
        }
    }

    /// Whether this token is exactly the bare name `name`.
    pub fn matches_bare(&self, name: &String) -> (r: bool)
        ensures
            r == (self@ == TokenClass::Bare(name@)),
    {
        match &self.value {
            Option::None => self.name.eq(name),
            _ => false,
        }
    }

    /// The toggle state, if this token is a toggle of the name `name`.
    pub fn matches_toggle(&self, name: &String) -> (r: Option<bool>)
        ensures
            match r {
                Some(enabled) => self@ == TokenClass::Toggle(enabled, name@),
                None => forall|enabled: bool| self@ != TokenClass::Toggle(enabled, name@),
            },
    {
        match &self.value {
            Option::Some(ArgValue::Bool(enabled)) => {
                if self.name.eq(name) {
                    Some(*enabled)
                } else {
                    None
                }
            },
            _ => None,
        }
    }

    /// The value text, if this token is a key/value pair keyed by `name`.
    pub fn matches_kv(&self, name: &String) -> (r: Option<String>)
        ensures
            match r {
                Some(value) => self@ == TokenClass::KeyValue(name@, value@),
                None => forall|v: Seq<char>| self@ != TokenClass::KeyValue(name@, v),
            },
    {
        match &self.value {
            Option::Some(ArgValue::KV(value)) => {
                if self.name.eq(name) {
                    Some(value.clone())
                } else {
                    None
                }
            },
            _ => None,
        }
    }

    /// Render the token back to canonical text: `+name`/`-name` for a
    /// toggle, `name=value` for a pair, the bare name otherwise.
    pub fn to_text(&self) -> (r: String)
        ensures
            r@ == render(self@),
    {
        match &self.value {
            Some(ArgValue::Bool(enabled)) => {
                let mut m = String::new();
                if *enabled {
                    m.append("+");
                } else {
                    m.append("-");
                }
                m.append(self.name.as_str());
                proof {
                    reveal_strlit("+");
                    reveal_strlit("-");
                    assert(m@ =~= render(self@));
                }
                m
            },
            Some(ArgValue::KV(value)) => {
                let mut m = String::from_str(self.name.as_str());
                m.append("=");
                m.append(value.as_str());
                proof {
                    reveal_strlit("=");
                    assert(m@ =~= render(self@));
                }
                m
            },
            None => String::from_str(self.name.as_str()),
        }
    }
}

} // verus!
