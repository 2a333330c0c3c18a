//! The recursive-descent parser.
//!
//! Grammar, precedence high to low:
//!
//! ```text
//! term        := lambda | application
//! lambda      := 'λ' var '.' term
//! application := atom atom*                    (left-associative)
//! atom        := var | '(' term ')'
//! var         := ident-start ident-char*
//! ```
//!
//! Design decisions, each deliberate:
//! - Application is left-associative and variadic: `a b c` is `((a b) c)`.
//!   A single atom is a degenerate application and stands for itself, so a
//!   parenthesized single atom such as `(x)` is valid and equal to `x`.
//! - A lambda's body extends as far right as possible: `λx.a b` is
//!   `λx.(a b)`. A character that the body cannot consume is left to the
//!   enclosing context: at the top level it is trailing input, an
//!   `InvalidApplication` error; inside parentheses anything but the closing
//!   parenthesis is an `UnmatchedParenthesis` error.
//! - A lambda may stand where a term starts (directly, or inside
//!   parentheses) but cannot continue an application: in `x λy.y` the
//!   lambda is not a further operand. Operands past the first are variables
//!   or parenthesized groups.
//! - An identifier starts with an alphabetic character and continues with
//!   alphanumerics or underscores; the lambda symbol is never part of an
//!   identifier. A leading digit does not start an atom.
//! - Whitespace is skipped at every decision point and is never required
//!   between tokens.
//!
//! The functions below come in pairs: a `spec` function over the remaining
//! character sequence states what is parsed, and an executable method over a
//! cursor implements it. Each spec function returns the parse result and the
//! input left over. The length checks guarding recursive calls discharge
//! termination; they always hold, since a successful atom consumes at least
//! one character, as the executable parser's contracts state.

use vstd::prelude::*;

use crate::chars::{
    chars_of, char_is_whitespace, ident_char, ident_start, is_ident_char, is_ident_start, is_ws,
    LAMBDA,
};
use crate::error::ParseError;
use crate::term::{valid_name, wf_term, SpecTerm, Term};

verus! {

/// The remaining input with leading whitespace removed.
pub open spec fn sp_skip_ws(s: Seq<char>) -> Seq<char>
    decreases s.len(),
{
    if s.len() > 0 && is_ws(s[0]) {
        sp_skip_ws(s.skip(1))
    } else {
        s
    }
}

/// The length of the identifier at the head of `s`: the number of leading
/// identifier characters.
pub open spec fn sp_var_len(s: Seq<char>) -> nat
    decreases s.len(),
{
    if s.len() > 0 && is_ident_char(s[0]) {
        (1 + sp_var_len(s.skip(1))) as nat
    } else {
        0
    }
}

/// Whether `c` may continue an application as the first character of a
/// further operand: an identifier start or an opening parenthesis.
pub open spec fn can_continue_atom(c: char) -> bool {
    is_ident_start(c) || c == '('
}

/// Parse a term: a lambda if one starts here, else an application.
pub open spec fn sp_term(s: Seq<char>) -> (Result<SpecTerm, ParseError>, Seq<char>)
    decreases s.len(), 3int,
{
    if s.len() > 0 && is_ws(s[0]) {
        sp_term(s.skip(1))
    } else if s.len() > 0 && s[0] == LAMBDA {
        sp_lambda(s)
    } else {
        sp_application(s)
    }
}

/// Parse a lambda abstraction: the lambda symbol, a bound variable, a dot,
/// and a body reaching as far right as possible.
pub open spec fn sp_lambda(s: Seq<char>) -> (Result<SpecTerm, ParseError>, Seq<char>)
    decreases s.len(), 0int,
{
    if s.len() > 0 && s[0] == LAMBDA {
        let s1 = sp_skip_ws(s.skip(1));
        if s1.len() > 0 && is_ident_start(s1[0]) {
            let n = sp_var_len(s1);
            let bind = s1.take(n as int);
            let s2 = sp_skip_ws(s1.skip(n as int));
            if s2.len() > 0 && s2[0] == '.' {
                let s3 = s2.skip(1);
                if s3.len() < s.len() {
                    let (rb, s4) = sp_term(s3);
                    match rb {
                        Ok(b) => (Ok(SpecTerm::Lambda { bind, body: Box::new(b) }), s4),
                        Err(e) => (Err(e), s4),
                    }
                } else {
                    (Err(ParseError::InvalidLambda), s3)
                }
            } else {
                (Err(ParseError::InvalidLambda), s2)
            }
        } else {
            (Err(ParseError::InvalidLambda), s1)
        }
    } else if s.len() > 0 {
        (Err(ParseError::UnexpectedCharacter(s[0])), s)
    } else {
        (Err(ParseError::InvalidLambda), s)
    }
}

/// Parse an application: one atom, then as many further atoms as the input
/// offers, folded to the left.
pub open spec fn sp_application(s: Seq<char>) -> (Result<SpecTerm, ParseError>, Seq<char>)
    decreases s.len(), 2int,
{
    let (r0, rest0) = sp_atom(s);
    match r0 {
        Ok(a) => if rest0.len() < s.len() {
            sp_app_loop(a, rest0)
        } else {
            (Err(ParseError::InvalidApplication), rest0)
        },
        Err(e) => (Err(e), rest0),
    }
}

/// Fold further operands onto `acc` while the lookahead character can start
/// one; stop silently at anything else.
///
/// The one-token lookahead is where a failed further-operand attempt is
/// swallowed: a character that cannot begin an operand ends the sequence
/// and is no error. Once the lookahead has committed to an operand, though,
/// a failure inside it is a genuine structural violation and propagates
/// unmodified, under the policy that the first failure short-circuits every
/// enclosing call and that the error identifies the first point of
/// violation. In a single left-to-right pass without backtracking the
/// committed attempt has consumed input, so swallowing its failure would
/// silently drop text: `x (y` must be `UnmatchedParenthesis`, not a
/// successful parse of `x`.
pub open spec fn sp_app_loop(acc: SpecTerm, s: Seq<char>) -> (Result<SpecTerm, ParseError>, Seq<char>)
    decreases s.len(), 2int,
{
    if s.len() > 0 && is_ws(s[0]) {
        sp_app_loop(acc, s.skip(1))
    } else if s.len() > 0 && can_continue_atom(s[0]) {
        let (r0, rest0) = sp_atom(s);
        match r0 {
            Ok(a) => if rest0.len() < s.len() {
                sp_app_loop(
                    SpecTerm::Application { func: Box::new(acc), arg: Box::new(a) },
                    rest0,
                )
            } else {
                (Err(ParseError::InvalidApplication), rest0)
            },
            Err(e) => (Err(e), rest0),
        }
    } else {
        (Ok(acc), s)
    }
}

/// Parse one atom: a variable, a parenthesized term, or a lambda standing
/// directly where a term may.
pub open spec fn sp_atom(s: Seq<char>) -> (Result<SpecTerm, ParseError>, Seq<char>)
    decreases s.len(), 1int,
{
    if s.len() > 0 && is_ws(s[0]) {
        sp_atom(s.skip(1))
    } else if s.len() == 0 {
        (Err(ParseError::InvalidApplication), s)
    } else if s[0] == '(' {
        let (r0, rest0) = sp_term(s.skip(1));
        match r0 {
            Ok(t) => {
                let rest1 = sp_skip_ws(rest0);
                if rest1.len() > 0 && rest1[0] == ')' {
                    (Ok(t), rest1.skip(1))
                } else {
                    (Err(ParseError::UnmatchedParenthesis), rest1)
                }
            },
            Err(e) => (Err(e), rest0),
        }
    } else if s[0] == LAMBDA {
        sp_lambda(s)
    } else if is_ident_start(s[0]) {
        let n = sp_var_len(s);
        (Ok(SpecTerm::Variable { name: s.take(n as int) }), s.skip(n as int))
    } else {
        (Err(ParseError::InvalidApplication), s)
    }
}

/// Parse a complete input: one term, with nothing but whitespace after it.
/// Trailing unconsumed characters are an `InvalidApplication` error.
pub open spec fn sp_parse(s: Seq<char>) -> Result<SpecTerm, ParseError> {
    let (r, rest) = sp_term(s);
    match r {
        Ok(t) => if sp_skip_ws(rest).len() > 0 {
            Err(ParseError::InvalidApplication)
        } else {
            Ok(t)
        },
        Err(e) => Err(e),
    }
}

/// The model of an executable parse result: the term is replaced by its view.
pub open spec fn res_view(r: Result<Term, ParseError>) -> Result<SpecTerm, ParseError> {
    match r {
        Ok(t) => Ok(t@),
        Err(e) => Err(e),
    }
}

/// The identifier at the head of `s` is made of identifier characters and
/// fits within `s`.
proof fn lemma_var_len_chars(s: Seq<char>)
    ensures
        sp_var_len(s) <= s.len(),
        forall|i: int| 0 <= i < sp_var_len(s) ==> is_ident_char(#[trigger] s[i]),
    decreases s.len(),
{
    if s.len() > 0 && is_ident_char(s[0]) {
        lemma_var_len_chars(s.skip(1));
        assert forall|i: int| 0 <= i < sp_var_len(s) implies is_ident_char(#[trigger] s[i]) by {
            if i > 0 {
                assert(s[i] == s.skip(1)[i - 1]);
            }
        }
    }
}

/// A term that `sp_term` yields is well-formed: every identifier in it is
/// valid.
proof fn lemma_wf_term(s: Seq<char>)
    ensures
        sp_term(s).0 matches Ok(t) ==> wf_term(t),
    decreases s.len(), 3int,
{
    if s.len() > 0 && is_ws(s[0]) {
        lemma_wf_term(s.skip(1));
    } else if s.len() > 0 && s[0] == LAMBDA {
        lemma_wf_lambda(s);
    } else {
        lemma_wf_application(s);
    }
}

/// A term that `sp_lambda` yields is well-formed.
proof fn lemma_wf_lambda(s: Seq<char>)
    ensures
        sp_lambda(s).0 matches Ok(t) ==> wf_term(t),
    decreases s.len(), 0int,
{
    if s.len() > 0 && s[0] == LAMBDA {
        let s1 = sp_skip_ws(s.skip(1));
        if s1.len() > 0 && is_ident_start(s1[0]) {
            lemma_var_len_chars(s1);
            let n = sp_var_len(s1);
            let s2 = sp_skip_ws(s1.skip(n as int));
            if s2.len() > 0 && s2[0] == '.' {
                let s3 = s2.skip(1);
                if s3.len() < s.len() {
                    lemma_wf_term(s3);
                    assert(valid_name(s1.take(n as int)));
                }
            }
        }
    }
}

/// A term that `sp_application` yields is well-formed.
proof fn lemma_wf_application(s: Seq<char>)
    ensures
        sp_application(s).0 matches Ok(t) ==> wf_term(t),
    decreases s.len(), 2int,
{
    let (r0, rest0) = sp_atom(s);
    lemma_wf_atom(s);
    match r0 {
        Ok(a) => {
            if rest0.len() < s.len() {
                lemma_wf_app_loop(a, rest0);
            }
        },
        Err(_) => {},
    }
}

/// The application fold preserves well-formedness.
proof fn lemma_wf_app_loop(acc: SpecTerm, s: Seq<char>)
    ensures
        wf_term(acc) ==> (sp_app_loop(acc, s).0 matches Ok(t) ==> wf_term(t)),
    decreases s.len(), 2int,
{
    if s.len() > 0 && is_ws(s[0]) {
        lemma_wf_app_loop(acc, s.skip(1));
    } else if s.len() > 0 && can_continue_atom(s[0]) {
        let (r0, rest0) = sp_atom(s);
        lemma_wf_atom(s);
        match r0 {
            Ok(a) => {
                if rest0.len() < s.len() {
                    lemma_wf_app_loop(
                        SpecTerm::Application { func: Box::new(acc), arg: Box::new(a) },
                        rest0,
                    );
                }
            },
            Err(_) => {},
        }
    }
}

/// A term that `sp_atom` yields is well-formed.
proof fn lemma_wf_atom(s: Seq<char>)
    ensures
        sp_atom(s).0 matches Ok(t) ==> wf_term(t),
    decreases s.len(), 1int,
{
    if s.len() > 0 && is_ws(s[0]) {
        lemma_wf_atom(s.skip(1));
    } else if s.len() == 0 {
    } else if s[0] == '(' {
        lemma_wf_term(s.skip(1));
    } else if s[0] == LAMBDA {
        lemma_wf_lambda(s);
    } else if is_ident_start(s[0]) {
        lemma_var_len_chars(s);
        assert(valid_name(s.take(sp_var_len(s) as int)));
    }
}

/// Every term a successful parse returns is well-formed: its identifiers
/// are non-empty and made of identifier characters only.
pub proof fn lemma_parse_wf(s: Seq<char>)
    ensures
        sp_parse(s) matches Ok(t) ==> wf_term(t),
{
    lemma_wf_term(s);
}

/// The leftmost leaf of an application spine: the term reached from `t` by
/// following `func` edges down.
pub open spec fn spine_head(t: SpecTerm) -> SpecTerm
    decreases t,
{
    match t {
        SpecTerm::Application { func, .. } => spine_head(*func),
        _ => t,
    }
}

/// Folding further operands onto `acc` never changes the leftmost leaf of
/// the application spine.
proof fn lemma_app_loop_left_associative(acc: SpecTerm, s: Seq<char>)
    ensures
        sp_app_loop(acc, s).0 matches Ok(t) ==> spine_head(t) == spine_head(acc),
    decreases s.len(), 2int,
{
    if s.len() > 0 && is_ws(s[0]) {
        lemma_app_loop_left_associative(acc, s.skip(1));
    } else if s.len() > 0 && can_continue_atom(s[0]) {
        let (r0, rest0) = sp_atom(s);
        match r0 {
            Ok(a) => {
                if rest0.len() < s.len() {
                    lemma_app_loop_left_associative(
                        SpecTerm::Application { func: Box::new(acc), arg: Box::new(a) },
                        rest0,
                    );
                }
            },
            Err(_) => {},
        }
    }
}

/// The lambda body is greedy in general: whenever a lambda parse succeeds,
/// its body is exactly the full term parsed after the dot — a term, which
/// may itself be an application, never just the first atom — and the
/// abstraction ends exactly where that term ends.
pub proof fn lemma_lambda_body_greedy(s: Seq<char>)
    ensures
        sp_lambda(s).0 is Ok ==> ({
            let s1 = sp_skip_ws(s.skip(1));
            let bind = s1.take(sp_var_len(s1) as int);
            let s3 = sp_skip_ws(s1.skip(sp_var_len(s1) as int)).skip(1);
            &&& sp_term(s3).0 is Ok
            &&& sp_lambda(s) == (
                Ok::<SpecTerm, ParseError>(
                    (SpecTerm::Lambda { bind, body: Box::new(sp_term(s3).0->Ok_0) }),
                ),
                sp_term(s3).1,
            )
        }),
{
}

/// Left-associativity in general: an application chain folds to the left,
/// so its first atom sits at the bottom left of the resulting tree — the
/// leftmost leaf of `a b c …` is the leftmost leaf of `a`, however long the
/// chain.
pub proof fn lemma_application_left_associative(s: Seq<char>)
    ensures
        sp_application(s).0 matches Ok(t) ==> (sp_atom(s).0 matches Ok(a) && spine_head(t)
            == spine_head(a)),
{
    let (r0, rest0) = sp_atom(s);
    match r0 {
        Ok(a) => {
            if rest0.len() < s.len() {
                lemma_app_loop_left_associative(a, rest0);
            }
        },
        Err(_) => {},
    }
}

/// Round-trip structure: the serialization of a parsed term determines the
/// tree exactly. Two successful parses whose terms serialize to the same
/// tagged record built the same tree, whatever the two inputs were.
pub proof fn lemma_round_trip_structure(s1: Seq<char>, t1: SpecTerm, s2: Seq<char>, t2: SpecTerm)
    requires
        sp_parse(s1) == Ok::<SpecTerm, ParseError>(t1),
        sp_parse(s2) == Ok::<SpecTerm, ParseError>(t2),
        crate::term::spec_serialize(t1) == crate::term::spec_serialize(t2),
    ensures
        t1 == t2,
{
    lemma_parse_wf(s1);
    lemma_parse_wf(s2);
    crate::term::lemma_serialize_injective(t1, t2);
}

/// Whitespace in front of the input never changes the result of a parse:
/// parsing ignores any all-whitespace prefix.
pub proof fn lemma_whitespace_prefix(p: Seq<char>, s: Seq<char>)
    requires
        forall|i: int| 0 <= i < p.len() ==> is_ws(#[trigger] p[i]),
    ensures
        sp_parse(p + s) == sp_parse(s),
{
    lemma_skip_ws_prefix(p, s);
    lemma_sp_term_ws(p + s);
    lemma_sp_term_ws(s);
}

/// Skipping whitespace removes an all-whitespace prefix entirely.
proof fn lemma_skip_ws_prefix(p: Seq<char>, s: Seq<char>)
    requires
        forall|i: int| 0 <= i < p.len() ==> is_ws(#[trigger] p[i]),
    ensures
        sp_skip_ws(p + s) == sp_skip_ws(s),
    decreases p.len(),
{
    if p.len() == 0 {
        assert(p + s =~= s);
    } else {
        assert((p + s)[0] == p[0]);
        assert((p + s).skip(1) =~= p.skip(1) + s);
        lemma_skip_ws_prefix(p.skip(1), s);
    }
}

/// Skipping whitespace never lengthens the input and leaves no whitespace at
/// the head.
proof fn lemma_skip_ws_props(s: Seq<char>)
    ensures
        sp_skip_ws(s).len() <= s.len(),
        sp_skip_ws(s).len() > 0 ==> !is_ws(sp_skip_ws(s)[0]),
    decreases s.len(),
{
    if s.len() > 0 && is_ws(s[0]) {
        lemma_skip_ws_props(s.skip(1));
    }
}

/// A term parse is insensitive to leading whitespace.
proof fn lemma_sp_term_ws(s: Seq<char>)
    ensures
        sp_term(s) == sp_term(sp_skip_ws(s)),
    decreases s.len(),
{
    if s.len() > 0 && is_ws(s[0]) {
        lemma_sp_term_ws(s.skip(1));
    }
}

/// An atom parse is insensitive to leading whitespace.
proof fn lemma_sp_atom_ws(s: Seq<char>)
    ensures
        sp_atom(s) == sp_atom(sp_skip_ws(s)),
    decreases s.len(),
{
    if s.len() > 0 && is_ws(s[0]) {
        lemma_sp_atom_ws(s.skip(1));
    }
}

/// The application fold is insensitive to leading whitespace.
proof fn lemma_sp_app_loop_ws(acc: SpecTerm, s: Seq<char>)
    ensures
        sp_app_loop(acc, s) == sp_app_loop(acc, sp_skip_ws(s)),
    decreases s.len(),
{
    if s.len() > 0 && is_ws(s[0]) {
        lemma_sp_app_loop_ws(acc, s.skip(1));
    }
}

/// A cursor over the characters of one input line. The characters never
/// change; only the position advances.
struct Parser {
    chars: Vec<char>,
    pos: usize,
}

impl Parser {
    /// The cursor stays within the input.
    spec fn wf(&self) -> bool {
        self.pos <= self.chars@.len()
    }

    /// The input not yet consumed.
    spec fn rest(&self) -> Seq<char> {
        self.chars@.skip(self.pos as int)
    }

    /// A parser at the start of the given input.
    fn new(input: &str) -> (p: Parser)
        ensures
            p.wf(),
            p.rest() == input@,
    {
        let chars = chars_of(input);
        let p = Parser { chars, pos: 0 };
        proof {
            assert(p.rest() =~= input@);
        }
        p
    }

    /// Advance the cursor past any whitespace.
    fn skip_whitespace(&mut self)
        requires
            old(self).wf(),
        ensures
            final(self).wf(),
            final(self).chars == old(self).chars,
            old(self).pos <= final(self).pos,
            final(self).rest() == sp_skip_ws(old(self).rest()),
    {
        while self.pos < self.chars.len() && char_is_whitespace(self.chars[self.pos])
            invariant
                self.wf(),
                self.chars == old(self).chars,
                old(self).pos <= self.pos,
                sp_skip_ws(old(self).rest()) == sp_skip_ws(self.rest()),
            decreases self.chars@.len() - self.pos,
        {
            proof {
                assert(self.rest()[0] == self.chars@[self.pos as int]);
                assert(self.rest().skip(1) =~= self.chars@.skip(self.pos + 1));
            }
            self.pos = self.pos + 1;
        }
    }

    /// Read one identifier: an identifier-start character, then the longest
    /// run of identifier characters at the cursor. Anything else — the end
    /// of the input, or a head that may not begin an identifier, a digit or
    /// an underscore included — is an `InvalidVariable` error with nothing
    /// consumed.
    fn parse_var(&mut self) -> (r: Result<String, ParseError>)
        requires
            old(self).wf(),
        ensures
            final(self).wf(),
            final(self).chars == old(self).chars,
            old(self).pos <= final(self).pos,
            match r {
                Ok(name) => {
                    &&& old(self).rest().len() > 0
                    &&& is_ident_start(old(self).rest()[0])
                    &&& sp_var_len(old(self).rest()) > 0
                    &&& name@ == old(self).rest().take(sp_var_len(old(self).rest()) as int)
                    &&& final(self).pos == old(self).pos + sp_var_len(old(self).rest())
                },
                Err(e) => {
                    &&& e == ParseError::InvalidVariable
                    &&& !(old(self).rest().len() > 0 && is_ident_start(old(self).rest()[0]))
                    &&& *final(self) == *old(self)
                },
            },
    {
        if self.pos == self.chars.len() {
            return Err(ParseError::InvalidVariable);
        }
        proof {
            assert(self.rest()[0] == self.chars@[self.pos as int]);
        }
        if !ident_start(self.chars[self.pos]) {
            return Err(ParseError::InvalidVariable);
        }
        let start = self.pos;
        let mut name = String::new();
        while self.pos < self.chars.len() && ident_char(self.chars[self.pos])
            invariant
                self.wf(),
                self.chars == old(self).chars,
                old(self).pos == start,
                start <= self.pos,
                name@ == old(self).rest().take(self.pos - start),
                sp_var_len(old(self).rest()) == self.pos - start + sp_var_len(self.rest()),
            decreases self.chars@.len() - self.pos,
        {
            let c = self.chars[self.pos];
            proof {
                assert(self.rest()[0] == self.chars@[self.pos as int]);
                assert(self.rest().skip(1) =~= self.chars@.skip(self.pos + 1));
                assert(old(self).rest().take(self.pos - start + 1) =~= old(self).rest().take(
                    self.pos - start,
                ).push(c));
            }
            crate::chars::push_char(&mut name, c);
            self.pos = self.pos + 1;
        }
        Ok(name)
    }

    /// Parse a term: a lambda if one starts at the cursor, else an
    /// application.
    fn parse_term(&mut self) -> (r: Result<Term, ParseError>)
        requires
            old(self).wf(),
        ensures
            final(self).wf(),
            final(self).chars == old(self).chars,
            old(self).pos <= final(self).pos,
            (res_view(r), final(self).rest()) == sp_term(old(self).rest()),
        decreases self.chars@.len() - self.pos, 3int,
    {
        proof {
            lemma_sp_term_ws(self.rest());
            lemma_skip_ws_props(self.rest());
        }
        self.skip_whitespace();
        if self.pos < self.chars.len() && self.chars[self.pos] == LAMBDA {
            proof {
                assert(self.rest()[0] == self.chars@[self.pos as int]);
            }
            self.parse_lambda()
        } else {
            proof {
                if self.pos < self.chars.len() {
                    assert(self.rest()[0] == self.chars@[self.pos as int]);
                }
            }
            self.parse_application()
        }
    }

    /// Parse a lambda abstraction: the lambda symbol, a bound variable, a
    /// dot, and a greedy body.
    fn parse_lambda(&mut self) -> (r: Result<Term, ParseError>)
        requires
            old(self).wf(),
        ensures
            final(self).wf(),
            final(self).chars == old(self).chars,
            old(self).pos <= final(self).pos,
            (res_view(r), final(self).rest()) == sp_lambda(old(self).rest()),
            r is Ok ==> old(self).pos < final(self).pos,
        decreases self.chars@.len() - self.pos, 0int,
    {
        let ghost s = old(self).rest();
        if self.pos < self.chars.len() && self.chars[self.pos] == LAMBDA {
            proof {
                assert(s[0] == self.chars@[self.pos as int]);
                assert(s.skip(1) =~= self.chars@.skip(self.pos + 1));
            }
            self.pos = self.pos + 1;
            self.skip_whitespace();
            let ghost s1 = self.rest();
            if self.pos < self.chars.len() && ident_start(self.chars[self.pos]) {
                proof {
                    assert(s1[0] == self.chars@[self.pos as int]);
                }
                let bind = match self.parse_var() {
                    Ok(name) => name,
                    Err(_) => {
                        return Err(ParseError::InvalidLambda);
                    },
                };
                proof {
                    assert(self.rest() =~= s1.skip(sp_var_len(s1) as int));
                }
                self.skip_whitespace();
                let ghost s2 = self.rest();
                if self.pos < self.chars.len() && self.chars[self.pos] == '.' {
                    proof {
                        assert(s2[0] == self.chars@[self.pos as int]);
                        assert(s2.skip(1) =~= self.chars@.skip(self.pos + 1));
                    }
                    self.pos = self.pos + 1;
                    let body = match self.parse_term() {
                        Ok(t) => t,
                        Err(e) => {
                            return Err(e);
                        },
                    };
                    Ok(Term::Lambda { bind, body: Box::new(body) })
                } else {
                    proof {
                        if self.pos < self.chars.len() {
                            assert(self.rest()[0] == self.chars@[self.pos as int]);
                        }
                    }
                    Err(ParseError::InvalidLambda)
                }
            } else {
                proof {
                    if self.pos < self.chars.len() {
                        assert(self.rest()[0] == self.chars@[self.pos as int]);
                    }
                }
                Err(ParseError::InvalidLambda)
            }
        } else if self.pos < self.chars.len() {
            proof {
                assert(s[0] == self.chars@[self.pos as int]);
            }
            let c = self.chars[self.pos];
            Err(ParseError::UnexpectedCharacter(c))
        } else {
            Err(ParseError::InvalidLambda)
        }
    }

    /// Parse an application: one atom, then fold further operands to the
    /// left while the lookahead character can start one.
    fn parse_application(&mut self) -> (r: Result<Term, ParseError>)
        requires
            old(self).wf(),
        ensures
            final(self).wf(),
            final(self).chars == old(self).chars,
            old(self).pos <= final(self).pos,
            (res_view(r), final(self).rest()) == sp_application(old(self).rest()),
            r is Ok ==> old(self).pos < final(self).pos,
        decreases self.chars@.len() - self.pos, 2int,
    {
        let first = match self.parse_non_application_term() {
            Ok(t) => t,
            Err(e) => {
                return Err(e);
            },
        };
        self.parse_app_loop(first)
    }

    /// Fold further operands onto `acc` while the lookahead character can
    /// start one; stop silently at anything else.
    fn parse_app_loop(&mut self, acc: Term) -> (r: Result<Term, ParseError>)
        requires
            old(self).wf(),
        ensures
            final(self).wf(),
            final(self).chars == old(self).chars,
            old(self).pos <= final(self).pos,
            (res_view(r), final(self).rest()) == sp_app_loop(acc@, old(self).rest()),
        decreases self.chars@.len() - self.pos, 2int,
    {
        proof {
            lemma_sp_app_loop_ws(acc@, self.rest());
            lemma_skip_ws_props(self.rest());
        }
        self.skip_whitespace();
        if self.pos < self.chars.len() {
            proof {
                assert(self.rest()[0] == self.chars@[self.pos as int]);
            }
            let c = self.chars[self.pos];
            if ident_start(c) || c == '(' {
                match self.parse_non_application_term() {
                    Ok(a) => self.parse_app_loop(
                        Term::Application { func: Box::new(acc), arg: Box::new(a) },
                    ),
                    Err(e) => Err(e),
                }
            } else {
                Ok(acc)
            }
        } else {
            Ok(acc)
        }
    }

    /// Parse one atom: a variable, a parenthesized term, or a lambda
    /// standing directly where a term may.
    fn parse_non_application_term(&mut self) -> (r: Result<Term, ParseError>)
        requires
            old(self).wf(),
        ensures
            final(self).wf(),
            final(self).chars == old(self).chars,
            old(self).pos <= final(self).pos,
            (res_view(r), final(self).rest()) == sp_atom(old(self).rest()),
            r is Ok ==> old(self).pos < final(self).pos,
        decreases self.chars@.len() - self.pos, 1int,
    {
        proof {
            lemma_sp_atom_ws(self.rest());
            lemma_skip_ws_props(self.rest());
        }
        self.skip_whitespace();
        if self.pos == self.chars.len() {
            return Err(ParseError::InvalidApplication);
        }
        proof {
            assert(self.rest()[0] == self.chars@[self.pos as int]);
        }
        let c = self.chars[self.pos];
        if c == '(' {
            proof {
                assert(self.rest().skip(1) =~= self.chars@.skip(self.pos + 1));
            }
            self.pos = self.pos + 1;
            let t = match self.parse_term() {
                Ok(t) => t,
                Err(e) => {
                    return Err(e);
                },
            };
            self.skip_whitespace();
            if self.pos < self.chars.len() {
                proof {
                    assert(self.rest()[0] == self.chars@[self.pos as int]);
                    assert(self.rest().skip(1) =~= self.chars@.skip(self.pos + 1));
                }
                if self.chars[self.pos] == ')' {
                    self.pos = self.pos + 1;
                    Ok(t)
                } else {
                    Err(ParseError::UnmatchedParenthesis)
                }
            } else {
                Err(ParseError::UnmatchedParenthesis)
            }
        } else if c == LAMBDA {
            self.parse_lambda()
        } else if ident_start(c) {
            let name = match self.parse_var() {
                Ok(n) => n,
                Err(e) => {
                    return Err(e);
                },
            };
            proof {
                assert(old(self).rest() == self.chars@.skip(old(self).pos as int));
            }
            Ok(Term::Variable { name })
        } else {
            Err(ParseError::InvalidApplication)
        }
    }
}

/// Parse one complete line of text into a term, or report the first
/// structural violation of the grammar.
///
/// The whole input must be consumed: characters other than whitespace after
/// a complete term are an `InvalidApplication` error. The result is exactly
/// what the grammar's specification [`sp_parse`] assigns to the input, so
/// parsing is deterministic and total: every finite input yields exactly one
/// `Ok` term or one classified error.
pub fn parse(input: &str) -> (r: Result<Term, ParseError>)
    ensures
        res_view(r) == sp_parse(input@),
        r matches Ok(t) ==> wf_term(t@),
{
    proof {
        lemma_parse_wf(input@);
    }
    let mut parser = Parser::new(input);
    let term = match parser.parse_term() {
        Ok(t) => t,
        Err(e) => {
            return Err(e);
        },
    };
    parser.skip_whitespace();
    if parser.pos < parser.chars.len() {
        Err(ParseError::InvalidApplication)
    } else {
        Ok(term)
    }
}

} // verus!
