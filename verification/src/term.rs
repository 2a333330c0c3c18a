//! The term model: the abstract syntax tree and its serialization.

use vstd::prelude::*;
use vstd::string::StringExecFns;

use crate::chars::{is_ident_char, is_ident_start};

verus! {

/// The abstract syntax tree of a lambda-calculus expression: a finite tree,
/// each subterm owned by exactly one parent, immutable once built.
#[derive(Debug)]
pub enum Term {
    /// An abstraction: a bound variable and a body.
    Lambda { bind: String, body: Box<Term> },
    /// A function application.
    Application { func: Box<Term>, arg: Box<Term> },
    /// A leaf referencing a name; no binding resolution is performed.
    Variable { name: String },
}

/// The mathematical model of a [`Term`]: the same tree with each identifier
/// as a sequence of characters.
pub enum SpecTerm {
    Lambda { bind: Seq<char>, body: Box<SpecTerm> },
    Application { func: Box<SpecTerm>, arg: Box<SpecTerm> },
    Variable { name: Seq<char> },
}

impl View for Term {
    type V = SpecTerm;

    open spec fn view(&self) -> SpecTerm
        decreases self,
    {
        match self {
            Term::Lambda { bind, body } => SpecTerm::Lambda {
                bind: bind@,
                body: Box::new((&**body).view()),
            },
            Term::Application { func, arg } => SpecTerm::Application {
                func: Box::new((&**func).view()),
                arg: Box::new((&**arg).view()),
            },
            Term::Variable { name } => SpecTerm::Variable { name: name@ },
        }
    }
}

/// A valid identifier: non-empty, opened by an identifier-start character and
/// continued by identifier characters only.
pub open spec fn valid_name(s: Seq<char>) -> bool {
    &&& s.len() > 0
    &&& is_ident_start(s[0])
    &&& forall|i: int| 0 <= i < s.len() ==> is_ident_char(#[trigger] s[i])
}

/// A well-formed term: every identifier in it is valid. The parser only
/// builds well-formed terms.
pub open spec fn wf_term(t: SpecTerm) -> bool
    decreases t,
{
    match t {
        SpecTerm::Lambda { bind, body } => valid_name(bind) && wf_term(*body),
        SpecTerm::Application { func, arg } => wf_term(*func) && wf_term(*arg),
        SpecTerm::Variable { name } => valid_name(name),
    }
}

/// The serialization of a term: a tagged record per variant, nested as the
/// tree is.
pub open spec fn spec_serialize(t: SpecTerm) -> Seq<char>
    decreases t,
{
    match t {
        SpecTerm::Lambda { bind, body } => "{\"tag\": \"lambda\", \"bind\": \""@ + bind
            + "\", \"body\": "@ + spec_serialize(*body) + "}"@,
        SpecTerm::Application { func, arg } => "{\"tag\": \"application\", \"func\": "@
            + spec_serialize(*func) + ", \"arg\": "@ + spec_serialize(*arg) + "}"@,
        SpecTerm::Variable { name } => "{\"tag\": \"var\", \"name\": \""@ + name + "\"}"@,
    }
}

impl Term {
    /// Serialize the term to its tagged textual record. Pure and total: it
    /// maps each variant to one record shape, recursing on the children.
    pub fn serialize(&self) -> (r: String)
        ensures
            r@ == spec_serialize(self@),
        decreases self,
    {
        match self {
            Term::Lambda { bind, body } => {
                let mut s = String::from_str("{\"tag\": \"lambda\", \"bind\": \"");
                s.append(bind.as_str());
                s.append("\", \"body\": ");
                let b = body.serialize();
                s.append(b.as_str());
                s.append("}");
                s
            },
            Term::Application { func, arg } => {
                let mut s = String::from_str("{\"tag\": \"application\", \"func\": ");
                let f = func.serialize();
                s.append(f.as_str());
                s.append(", \"arg\": ");
                let a = arg.serialize();
                s.append(a.as_str());
                s.append("}");
                s
            },
            Term::Variable { name } => {
                let mut s = String::from_str("{\"tag\": \"var\", \"name\": \"");
                s.append(name.as_str());
                s.append("\"}");
                s
            },
        }
    }
}

/// No identifier character is a double quote, so the quote closing an
/// identifier in a serialization is always the first quote after it.
proof fn lemma_name_has_no_quote(s: Seq<char>)
    requires
        valid_name(s),
    ensures
        forall|i: int| 0 <= i < s.len() ==> s[i] != '"',
{
}

/// Two sequences that agree, each an identifier followed by a double quote
/// and more, carry the same identifier and the same remainder.
proof fn lemma_split_at_quote(n1: Seq<char>, n2: Seq<char>, a1: Seq<char>, a2: Seq<char>)
    requires
        forall|i: int| 0 <= i < n1.len() ==> n1[i] != '"',
        forall|i: int| 0 <= i < n2.len() ==> n2[i] != '"',
        a1.len() > 0 && a1[0] == '"',
        a2.len() > 0 && a2[0] == '"',
        n1 + a1 == n2 + a2,
    ensures
        n1 == n2,
        a1 == a2,
{
    broadcast use vstd::seq_lib::group_seq_properties;

    assert((n1 + a1).len() == n1.len() + a1.len());
    assert((n2 + a2).len() == n2.len() + a2.len());
    if n1.len() < n2.len() {
        assert((n1 + a1)[n1.len() as int] == a1[0]);
        assert((n2 + a2)[n1.len() as int] == n2[n1.len() as int]);
        assert(false);
    } else if n1.len() > n2.len() {
        assert((n2 + a2)[n2.len() as int] == a2[0]);
        assert((n1 + a1)[n2.len() as int] == n1[n2.len() as int]);
        assert(false);
    } else {
        assert(n1 =~= n2) by {
            assert forall|i: int| 0 <= i < n1.len() implies n1[i] == n2[i] by {
                assert((n1 + a1)[i] == n1[i]);
                assert((n2 + a2)[i] == n2[i]);
            }
        }
        assert(a1 =~= a2) by {
            assert forall|i: int| 0 <= i < a1.len() implies a1[i] == a2[i] by {
                assert((n1 + a1)[n1.len() + i] == a1[i]);
                assert((n2 + a2)[n2.len() + i] == a2[i]);
            }
        }
    }
}

/// Two sequences that agree and begin with the same prefix agree past it.
proof fn lemma_strip_prefix(p: Seq<char>, a1: Seq<char>, a2: Seq<char>)
    requires
        p + a1 == p + a2,
    ensures
        a1 == a2,
{
    broadcast use vstd::seq_lib::group_seq_properties;

    assert((p + a1).len() == p.len() + a1.len());
    assert((p + a2).len() == p.len() + a2.len());
    assert(a1 =~= a2) by {
        assert forall|i: int| 0 <= i < a1.len() implies a1[i] == a2[i] by {
            assert((p + a1)[p.len() + i] == a1[i]);
            assert((p + a2)[p.len() + i] == a2[i]);
        }
    }
}

/// No serialization is a proper prefix of another: if two serializations
/// followed by arbitrary remainders agree, the terms agree and so do the
/// remainders.
proof fn lemma_serialize_prefix_free(t1: SpecTerm, t2: SpecTerm, r1: Seq<char>, r2: Seq<char>)
    requires
        wf_term(t1),
        wf_term(t2),
        spec_serialize(t1) + r1 == spec_serialize(t2) + r2,
    ensures
        t1 == t2,
        r1 == r2,
    decreases t1,
{
    reveal_strlit("{\"tag\": \"lambda\", \"bind\": \"");
    reveal_strlit("{\"tag\": \"application\", \"func\": ");
    reveal_strlit("{\"tag\": \"var\", \"name\": \"");
    reveal_strlit("\", \"body\": ");
    reveal_strlit(", \"arg\": ");
    reveal_strlit("\"}");
    reveal_strlit("}");
    let x1 = spec_serialize(t1) + r1;
    let x2 = spec_serialize(t2) + r2;
    // The three record shapes differ at index 9: 'l', 'a' or 'v'.
    assert(x1[9] == x2[9]);
    match (t1, t2) {
        (SpecTerm::Lambda { bind: b1, body: d1 }, SpecTerm::Lambda { bind: b2, body: d2 }) => {
            let lit = "{\"tag\": \"lambda\", \"bind\": \""@;
            let mid = "\", \"body\": "@;
            let end = "}"@;
            let y1 = b1 + (mid + (spec_serialize(*d1) + (end + r1)));
            let y2 = b2 + (mid + (spec_serialize(*d2) + (end + r2)));
            assert(x1 =~= lit + y1);
            assert(x2 =~= lit + y2);
            lemma_strip_prefix(lit, y1, y2);
            lemma_name_has_no_quote(b1);
            lemma_name_has_no_quote(b2);
            let z1 = mid + (spec_serialize(*d1) + (end + r1));
            let z2 = mid + (spec_serialize(*d2) + (end + r2));
            assert(z1[0] == '"');
            assert(z2[0] == '"');
            lemma_split_at_quote(b1, b2, z1, z2);
            lemma_strip_prefix(mid, spec_serialize(*d1) + (end + r1), spec_serialize(*d2) + (end + r2));
            lemma_serialize_prefix_free(*d1, *d2, end + r1, end + r2);
            lemma_strip_prefix(end, r1, r2);
        },
        (
            SpecTerm::Application { func: f1, arg: a1 },
            SpecTerm::Application { func: f2, arg: a2 },
        ) => {
            let lit = "{\"tag\": \"application\", \"func\": "@;
            let mid = ", \"arg\": "@;
            let end = "}"@;
            let y1 = spec_serialize(*f1) + (mid + (spec_serialize(*a1) + (end + r1)));
            let y2 = spec_serialize(*f2) + (mid + (spec_serialize(*a2) + (end + r2)));
            assert(x1 =~= lit + y1);
            assert(x2 =~= lit + y2);
            lemma_strip_prefix(lit, y1, y2);
            lemma_serialize_prefix_free(
                *f1,
                *f2,
                mid + (spec_serialize(*a1) + (end + r1)),
                mid + (spec_serialize(*a2) + (end + r2)),
            );
            lemma_strip_prefix(mid, spec_serialize(*a1) + (end + r1), spec_serialize(*a2) + (end + r2));
            lemma_serialize_prefix_free(*a1, *a2, end + r1, end + r2);
            lemma_strip_prefix(end, r1, r2);
        },
        (SpecTerm::Variable { name: n1 }, SpecTerm::Variable { name: n2 }) => {
            let lit = "{\"tag\": \"var\", \"name\": \""@;
            let end = "\"}"@;
            let y1 = n1 + (end + r1);
            let y2 = n2 + (end + r2);
            assert(x1 =~= lit + y1);
            assert(x2 =~= lit + y2);
            lemma_strip_prefix(lit, y1, y2);
            lemma_name_has_no_quote(n1);
            lemma_name_has_no_quote(n2);
            assert((end + r1)[0] == '"');
            assert((end + r2)[0] == '"');
            lemma_split_at_quote(n1, n2, end + r1, end + r2);
            lemma_strip_prefix(end, r1, r2);
        },
        (SpecTerm::Lambda { bind: b1, body: d1 }, _) => {
            assert(x1[9] == 'l');
            assert(false);
        },
        (SpecTerm::Application { func: f1, arg: a1 }, _) => {
            assert(x1[9] == 'a');
            assert(false);
        },
        (SpecTerm::Variable { name: n1 }, _) => {
            assert(x1[9] == 'v');
            assert(false);
        },
    }
}

/// The serialization mirrors the tree exactly: two well-formed terms with
/// the same serialization are the same term, so the tagged record determines
/// the parsed structure completely.
pub proof fn lemma_serialize_injective(t1: SpecTerm, t2: SpecTerm)
    requires
        wf_term(t1),
        wf_term(t2),
        spec_serialize(t1) == spec_serialize(t2),
    ensures
        t1 == t2,
{
    assert(spec_serialize(t1) + Seq::<char>::empty() =~= spec_serialize(t2) + Seq::<char>::empty());
    lemma_serialize_prefix_free(t1, t2, Seq::empty(), Seq::empty());
}

impl PartialEq for Term {
    /// Structural equality of trees: same shape, same identifiers.
    fn eq(&self, other: &Term) -> (r: bool)
        decreases self,
    {
        match (self, other) {
            (
                Term::Lambda { bind: b1, body: t1 },
                Term::Lambda { bind: b2, body: t2 },
            ) => *b1 == *b2 && (&**t1).eq(&**t2),
            (
                Term::Application { func: f1, arg: a1 },
                Term::Application { func: f2, arg: a2 },
            ) => (&**f1).eq(&**f2) && (&**a1).eq(&**a2),
            (Term::Variable { name: n1 }, Term::Variable { name: n2 }) => *n1 == *n2,
            _ => false,
        }
    }
}

impl vstd::std_specs::cmp::PartialEqSpecImpl for Term {
    open spec fn obeys_eq_spec() -> bool {
        true
    }

    open spec fn eq_spec(&self, other: &Term) -> bool {
        self@ == other@
    }
}

} // verus!
