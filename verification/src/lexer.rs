//! Lexical analysis: turns raw assembly source text into a flat token
//! sequence, tagging each token with its kind and source line.
//!
//! The scanner walks the text left to right with maximal munch: a run of
//! decimal digits becomes an `Immediate` token; a run of letters and digits
//! is case-folded to lower case and becomes an `Opcode`, `Register` or
//! `Identifier` token; `,` and `:` become `Punctuator` tokens; every other
//! character is silently skipped. Lexing never fails.

use vstd::prelude::*;
use vstd::string::StrSliceExecFns;
use vstd::string::StringExecFns;

verus! {

/// The kind of a lexical token.
#[derive(Clone, Copy, Debug, PartialEq, Eq, Structural)]
pub enum TokenType {
    Opcode,
    Register,
    Immediate,
    Punctuator,
    Identifier,
}

/// A lexical token: its text, its kind, and the source line it starts on
/// (lines are counted from zero).
#[derive(Debug)]
pub struct Token {
    pub value: String,
    pub t: TokenType,
    pub line: usize,
}

/// The mathematical image of a token: the text as a character sequence.
#[verifier::ext_equal]
pub struct TokenView {
    pub value: Seq<char>,
    pub t: TokenType,
    pub line: nat,
}

impl View for Token {
    type V = TokenView;

    open spec fn view(&self) -> TokenView {
        TokenView { value: self.value@, t: self.t, line: self.line as nat }
    }
}

impl PartialEq for Token {
    /// Tokens match on text and kind only; the source line is metadata.
    fn eq(&self, other: &Token) -> (r: bool) {
        self.value == other.value && self.t == other.t
    }
}

impl vstd::std_specs::cmp::PartialEqSpecImpl for Token {
    open spec fn obeys_eq_spec() -> bool {
        true
    }

    open spec fn eq_spec(&self, other: &Token) -> bool {
        self@.value == other@.value && self@.t == other@.t
    }
}

/// The image of a token vector.
pub open spec fn tokens_view(ts: Seq<Token>) -> Seq<TokenView> {
    ts.map_values(|t: Token| t@)
}

/// The white space the lexer eats between tokens.
pub open spec fn is_space_char(c: char) -> bool {
    c == ' ' || c == '\t' || c == '\n' || c == '\r' || c == '\u{c}'
}

/// A decimal digit.
pub open spec fn is_digit_char(c: char) -> bool {
    '0' <= c && c <= '9'
}

/// A character that may stand in an identifier: a letter or a digit.
pub open spec fn is_word_char(c: char) -> bool {
    is_digit_char(c) || ('a' <= c && c <= 'z') || ('A' <= c && c <= 'Z')
}

/// Case folding of a single character: upper-case letters go to lower case,
/// everything else is left alone.
pub open spec fn lower_char(c: char) -> char {
    if 'A' <= c && c <= 'Z' {
        ((c as u32) + 32) as char
    } else {
        c
    }
}

/// Case folding of a whole character sequence.
pub open spec fn fold_lower(s: Seq<char>) -> Seq<char> {
    s.map_values(|c: char| lower_char(c))
}

/// The fixed set of opcode names (already lower case).
pub open spec fn is_opcode_name(s: Seq<char>) -> bool {
    ||| s == "nop"@
    ||| s == "mov"@
    ||| s == "fwd"@
    ||| s == "rol"@
    ||| s == "ror"@
    ||| s == "sht"@
    ||| s == "rld"@
    ||| s == "see"@
    ||| s == "jmp"@
    ||| s == "je"@
    ||| s == "jg"@
    ||| s == "jl"@
    ||| s == "add"@
    ||| s == "sub"@
    ||| s == "cmp"@
    ||| s == "and"@
    ||| s == "or"@
    ||| s == "xor"@
    ||| s == "not"@
}

/// The fixed set of register names (already lower case).
pub open spec fn is_register_name(s: Seq<char>) -> bool {
    ||| s == "a"@
    ||| s == "b"@
    ||| s == "c"@
    ||| s == "ip"@
}

/// The kind a case-folded word is reclassified to: opcode and register
/// names are recognised, everything else stays an identifier.
pub open spec fn spec_classify(s: Seq<char>) -> TokenType {
    if is_opcode_name(s) {
        TokenType::Opcode
    } else if is_register_name(s) {
        TokenType::Register
    } else {
        TokenType::Identifier
    }
}

/// The end of the run of decimal digits that starts at `i`.
pub open spec fn digits_end(s: Seq<char>, i: int) -> int
    decreases s.len() - i
    when 0 <= i <= s.len()
{
    if i < s.len() && is_digit_char(s[i]) {
        digits_end(s, i + 1)
    } else {
        i
    }
}

/// The end of the run of word characters that starts at `i`.
pub open spec fn word_end(s: Seq<char>, i: int) -> int
    decreases s.len() - i
    when 0 <= i <= s.len()
{
    if i < s.len() && is_word_char(s[i]) {
        word_end(s, i + 1)
    } else {
        i
    }
}

pub proof fn lemma_digits_end(s: Seq<char>, i: int)
    requires
        0 <= i <= s.len(),
    ensures
        i <= digits_end(s, i) <= s.len(),
        i < s.len() && is_digit_char(s[i]) ==> i + 1 <= digits_end(s, i),
        forall|k: int| i <= k < digits_end(s, i) ==> is_digit_char(s[k]),
    decreases s.len() - i,
{
    if i < s.len() && is_digit_char(s[i]) {
        lemma_digits_end(s, i + 1);
    }
}

pub proof fn lemma_word_end(s: Seq<char>, i: int)
    requires
        0 <= i <= s.len(),
    ensures
        i <= word_end(s, i) <= s.len(),
        i < s.len() && is_word_char(s[i]) ==> i + 1 <= word_end(s, i),
    decreases s.len() - i,
{
    if i < s.len() && is_word_char(s[i]) {
        lemma_word_end(s, i + 1);
    }
}

/// The token sequence produced from position `i` on, with `line` newlines
/// already behind us. One maximal-munch token (or one skipped character)
/// per recursive step.
pub open spec fn spec_lex_at(s: Seq<char>, i: int, line: nat) -> Seq<TokenView>
    decreases s.len() - i
    when 0 <= i <= s.len()
{
    if i >= s.len() {
        Seq::empty()
    } else if is_space_char(s[i]) {
        spec_lex_at(s, i + 1, if s[i] == '\n' { line + 1 } else { line })
    } else if is_digit_char(s[i]) {
        proof {
            lemma_digits_end(s, i);
        }
        seq![
            TokenView { value: s.subrange(i, digits_end(s, i)), t: TokenType::Immediate, line },
        ] + spec_lex_at(s, digits_end(s, i), line)
    } else if is_word_char(s[i]) {
        proof {
            lemma_word_end(s, i);
        }
        let w = fold_lower(s.subrange(i, word_end(s, i)));
        seq![TokenView { value: w, t: spec_classify(w), line }] + spec_lex_at(
            s,
            word_end(s, i),
            line,
        )
    } else if s[i] == ',' || s[i] == ':' {
        seq![
            TokenView { value: s.subrange(i, i + 1), t: TokenType::Punctuator, line },
        ] + spec_lex_at(s, i + 1, line)
    } else {
        // Documented leniency: a character in no class is silently skipped.
        spec_lex_at(s, i + 1, line)
    }
}

/// The token sequence of a whole source text.
pub open spec fn spec_lex(s: Seq<char>) -> Seq<TokenView> {
    spec_lex_at(s, 0, 0)
}

/// What the lexer guarantees of every token it emits: an `Immediate`
/// token's text is a non-empty run of decimal digits.
pub open spec fn token_wf(t: TokenView) -> bool {
    t.t == TokenType::Immediate ==> t.value.len() > 0 && (forall|k: int|
        0 <= k < t.value.len() ==> is_digit_char(#[trigger] t.value[k]))
}

pub open spec fn wf_tokens(ts: Seq<TokenView>) -> bool {
    forall|k: int| 0 <= k < ts.len() ==> token_wf(#[trigger] ts[k])
}

proof fn lemma_lex_at_wf(s: Seq<char>, i: int, line: nat)
    requires
        0 <= i <= s.len(),
    ensures
        wf_tokens(spec_lex_at(s, i, line)),
    decreases s.len() - i,
{
    if i >= s.len() {
    } else if is_space_char(s[i]) {
        lemma_lex_at_wf(s, i + 1, if s[i] == '\n' { line + 1 } else { line });
    } else if is_digit_char(s[i]) {
        lemma_digits_end(s, i);
        lemma_lex_at_wf(s, digits_end(s, i), line);
        let t0 = TokenView {
            value: s.subrange(i, digits_end(s, i)),
            t: TokenType::Immediate,
            line,
        };
        assert(token_wf(t0));
        assert(wf_tokens(seq![t0] + spec_lex_at(s, digits_end(s, i), line)));
    } else if is_word_char(s[i]) {
        lemma_word_end(s, i);
        lemma_lex_at_wf(s, word_end(s, i), line);
        let w = fold_lower(s.subrange(i, word_end(s, i)));
        let t0 = TokenView { value: w, t: spec_classify(w), line };
        assert(token_wf(t0));
        assert(wf_tokens(seq![t0] + spec_lex_at(s, word_end(s, i), line)));
    } else if s[i] == ',' || s[i] == ':' {
        lemma_lex_at_wf(s, i + 1, line);
        let t0 = TokenView { value: s.subrange(i, i + 1), t: TokenType::Punctuator, line };
        assert(wf_tokens(seq![t0] + spec_lex_at(s, i + 1, line)));
    } else {
        lemma_lex_at_wf(s, i + 1, line);
    }
}

/// Every token the lexer emits is well formed.
pub proof fn lemma_lex_wf(s: Seq<char>)
    ensures
        wf_tokens(spec_lex(s)),
{
    lemma_lex_at_wf(s, 0, 0);
}

fn ch_is_space(c: char) -> (r: bool)
    ensures
        r == is_space_char(c),
{
    c == ' ' || c == '\t' || c == '\n' || c == '\r' || c == '\u{c}'
}

fn ch_is_digit(c: char) -> (r: bool)
    ensures
        r == is_digit_char(c),
{
    '0' <= c && c <= '9'
}

fn ch_is_word(c: char) -> (r: bool)
    ensures
        r == is_word_char(c),
{
    ('0' <= c && c <= '9') || ('a' <= c && c <= 'z') || ('A' <= c && c <= 'Z')
}

fn ch_lower(c: char) -> (r: char)
    ensures
        r == lower_char(c),
{
    if 'A' <= c && c <= 'Z' {
        let u: u32 = (c as u32) + 32;
        assert(97 <= u <= 122);
        let r: char = (u as u8) as char;
        assert(r == ((c as u32) + 32) as char);
        r
    } else {
        c
    }
}

/// Relies on `String::push`: appends the given character to the end of the
/// string.
#[verifier::external_body]
fn push_char(s: &mut String, c: char)
    ensures
        final(s)@ == old(s)@.push(c),
{
    s.push(c)
}

/// Character-sequence equality of two string slices.
pub(crate) fn str_eq(a: &str, b: &str) -> (r: bool)
    ensures
        r == (a@ == b@),
{
    let x = String::from_str(a);
    let y = String::from_str(b);
    x == y
}

fn is_opcode_word(v: &String) -> (r: bool)
    ensures
        r == is_opcode_name(v@),
{
    let s = v.as_str();
    str_eq(s, "nop") || str_eq(s, "mov") || str_eq(s, "fwd") || str_eq(s, "rol") || str_eq(
        s,
        "ror",
    ) || str_eq(s, "sht") || str_eq(s, "rld") || str_eq(s, "see") || str_eq(s, "jmp") || str_eq(
        s,
        "je",
    ) || str_eq(s, "jg") || str_eq(s, "jl") || str_eq(s, "add") || str_eq(s, "sub") || str_eq(
        s,
        "cmp",
    ) || str_eq(s, "and") || str_eq(s, "or") || str_eq(s, "xor") || str_eq(s, "not")
}

fn is_register_word(v: &String) -> (r: bool)
    ensures
        r == is_register_name(v@),
{
    let s = v.as_str();
    str_eq(s, "a") || str_eq(s, "b") || str_eq(s, "c") || str_eq(s, "ip")
}

fn classify_word(v: &String) -> (t: TokenType)
    ensures
        t == spec_classify(v@),
{
    if is_opcode_word(v) {
        TokenType::Opcode
    } else if is_register_word(v) {
        TokenType::Register
    } else {
        TokenType::Identifier
    }
}

/// Scans the run of decimal digits that starts at `i`.
fn scan_digits(s: &str, i: usize, n: usize) -> (j: usize)
    requires
        n == s@.len(),
        i <= n,
    ensures
        i <= j <= n,
        j == digits_end(s@, i as int),
{
    let mut j: usize = i;
    let mut done: bool = false;
    while !done
        invariant
            i <= j <= n,
            n == s@.len(),
            digits_end(s@, i as int) == digits_end(s@, j as int),
            done ==> j == digits_end(s@, i as int),
        decreases n - j, if done { 0int } else { 1int },
    {
        if j < n {
            let c = s.get_char(j);
            if ch_is_digit(c) {
                j = j + 1;
            } else {
                done = true;
            }
        } else {
            done = true;
        }
    }
    j
}

/// Scans the run of word characters that starts at `i`.
fn scan_word(s: &str, i: usize, n: usize) -> (j: usize)
    requires
        n == s@.len(),
        i <= n,
    ensures
        i <= j <= n,
        j == word_end(s@, i as int),
{
    let mut j: usize = i;
    let mut done: bool = false;
    while !done
        invariant
            i <= j <= n,
            n == s@.len(),
            word_end(s@, i as int) == word_end(s@, j as int),
            done ==> j == word_end(s@, i as int),
        decreases n - j, if done { 0int } else { 1int },
    {
        if j < n {
            let c = s.get_char(j);
            if ch_is_word(c) {
                j = j + 1;
            } else {
                done = true;
            }
        } else {
            done = true;
        }
    }
    j
}

/// Copies the characters of `s` between `i` and `j`, case-folded to lower
/// case.
fn lower_copy(s: &str, i: usize, j: usize) -> (v: String)
    requires
        i <= j <= s@.len(),
    ensures
        v@ == fold_lower(s@.subrange(i as int, j as int)),
{
    let mut v = String::new();
    let mut k: usize = i;
    while k < j
        invariant
            i <= k <= j <= s@.len(),
            v@ == fold_lower(s@.subrange(i as int, k as int)),
        decreases j - k,
    {
        let c = ch_lower(s.get_char(k));
        push_char(&mut v, c);
        k = k + 1;
        proof {
            assert(s@.subrange(i as int, k as int) == s@.subrange(i as int, k - 1).push(
                s@[k - 1],
            ));
            assert(v@ =~= fold_lower(s@.subrange(i as int, k as int)));
        }
    }
    assert(v@ =~= fold_lower(s@.subrange(i as int, j as int)));
    v
}

/// Turns raw source text into its token sequence.
///
/// Lexing never fails: a character that fits no token class is skipped.
pub fn lex(source: &String) -> (tokens: Vec<Token>)
    ensures
        tokens_view(tokens@) == spec_lex(source@),
{
    let s: &str = source.as_str();
    let n: usize = s.unicode_len();
    let mut tokens: Vec<Token> = Vec::new();
    let mut i: usize = 0;
    let mut line: usize = 0;
    while i < n
        invariant
            0 <= i <= n,
            line <= i,
            n == s@.len(),
            s@ == source@,
            tokens_view(tokens@) + spec_lex_at(source@, i as int, line as nat) == spec_lex(
                source@,
            ),
        decreases n - i,
    {
        let ghost toks0 = tokens_view(tokens@);
        let c = s.get_char(i);
        if ch_is_space(c) {
            if c == '\n' {
                line = line + 1;
            }
            i = i + 1;
        } else if ch_is_digit(c) {
            proof {
                lemma_digits_end(s@, i as int);
            }
            let j = scan_digits(s, i, n);
            let value = String::from_str(s.substring_char(i, j));
            let ghost tv = TokenView {
                value: source@.subrange(i as int, j as int),
                t: TokenType::Immediate,
                line: line as nat,
            };
            tokens.push(Token { value, t: TokenType::Immediate, line });
            proof {
                assert(tokens_view(tokens@) =~= toks0.push(tv));
                assert(spec_lex_at(source@, i as int, line as nat) == seq![tv] + spec_lex_at(
                    source@,
                    j as int,
                    line as nat,
                ));
                assert(toks0.push(tv) + spec_lex_at(source@, j as int, line as nat) =~= toks0 + (
                seq![tv] + spec_lex_at(source@, j as int, line as nat)));
            }
            i = j;
        } else if ch_is_word(c) {
            proof {
                lemma_word_end(s@, i as int);
            }
            let j = scan_word(s, i, n);
            let value = lower_copy(s, i, j);
            let t = classify_word(&value);
            let ghost w = fold_lower(source@.subrange(i as int, j as int));
            let ghost tv = TokenView { value: w, t: spec_classify(w), line: line as nat };
            tokens.push(Token { value, t, line });
            proof {
                assert(tokens_view(tokens@) =~= toks0.push(tv));
                assert(spec_lex_at(source@, i as int, line as nat) == seq![tv] + spec_lex_at(
                    source@,
                    j as int,
                    line as nat,
                ));
                assert(toks0.push(tv) + spec_lex_at(source@, j as int, line as nat) =~= toks0 + (
                seq![tv] + spec_lex_at(source@, j as int, line as nat)));
            }
            i = j;
        } else if c == ',' || c == ':' {
            let value = String::from_str(s.substring_char(i, i + 1));
            let ghost tv = TokenView {
                value: source@.subrange(i as int, i + 1),
                t: TokenType::Punctuator,
                line: line as nat,
            };
            tokens.push(Token { value, t: TokenType::Punctuator, line });
            proof {
                assert(tokens_view(tokens@) =~= toks0.push(tv));
                assert(spec_lex_at(source@, i as int, line as nat) == seq![tv] + spec_lex_at(
                    source@,
                    i + 1,
                    line as nat,
                ));
                assert(toks0.push(tv) + spec_lex_at(source@, i + 1, line as nat) =~= toks0 + (
                seq![tv] + spec_lex_at(source@, i + 1, line as nat)));
            }
            i = i + 1;
        } else {
            i = i + 1;
        }
    }
    tokens
}

} // verus!
