//! Parsing and label resolution: consumes the lexer's tokens, builds an
//! ordered instruction list, resolves label references to absolute
//! instruction addresses, and strips the label pseudo-instructions.
//!
//! The parser makes a single forward pass. At each position it tries an
//! instruction match, then a label-definition match; the first position
//! matching neither stops the whole parse and the remaining tokens are
//! discarded. Labels do not advance the instruction counter, so a label
//! denotes the address of the instruction that follows it; when a name is
//! defined twice the later definition wins; a reference with no matching
//! definition resolves to address 0.

use vstd::prelude::*;
use vstd::string::StrSliceExecFns;
use vstd::string::StringExecFns;
use crate::lexer::Token;
use crate::lexer::TokenType;
use crate::lexer::TokenView;
use crate::lexer::lex;
use crate::lexer::tokens_view;
use crate::lexer::spec_lex;
use crate::lexer::lemma_lex_wf;
use crate::lexer::token_wf;
use crate::lexer::wf_tokens;
use crate::lexer::is_digit_char;
use crate::lexer::str_eq;

verus! {

/// An instruction operand.
#[derive(Debug)]
pub enum Value {
    /// An unresolved label reference; none remains in an executable
    /// instruction after resolution.
    Identifier(String),
    /// A 16-bit signed literal.
    Immediate(i16),
    /// A register name.
    Register(String),
}

/// The mathematical image of an operand.
#[verifier::ext_equal]
pub enum ValueView {
    Identifier(Seq<char>),
    Immediate(i16),
    Register(Seq<char>),
}

impl View for Value {
    type V = ValueView;

    open spec fn view(&self) -> ValueView {
        match self {
            Value::Identifier(s) => ValueView::Identifier(s@),
            Value::Immediate(n) => ValueView::Immediate(*n),
            Value::Register(s) => ValueView::Register(s@),
        }
    }
}

impl Clone for Value {
    fn clone(&self) -> (r: Value)
        ensures
            r@ == self@,
    {
        match self {
            Value::Identifier(s) => Value::Identifier(s.clone()),
            Value::Immediate(n) => Value::Immediate(*n),
            Value::Register(s) => Value::Register(s.clone()),
        }
    }
}

/// One instruction of the abstract syntax tree. Every variant carries the
/// source line it came from (for diagnostics); `Label` is a transient
/// pseudo-instruction removed before execution.
#[derive(Debug)]
pub enum Instruction {
    Label(usize, String),
    Nop(usize),
    Mov(usize, Value, Value),
    // Motor
    Fwd(usize),
    Rol(usize),
    Ror(usize),
    // Gun
    Sht(usize),
    Rld(usize),
    // Vision
    See(usize),
    // Control flow
    Jmp(usize, Value),
    Je(usize, Value),
    Jg(usize, Value),
    Jl(usize, Value),
    // Arithmetic and logic
    Add(usize, Value, Value),
    Sub(usize, Value, Value),
    Cmp(usize, Value, Value),
    And(usize, Value, Value),
    Or(usize, Value, Value),
    Xor(usize, Value, Value),
    Not(usize, Value),
}

/// The mathematical image of an instruction.
#[verifier::ext_equal]
pub enum InstrView {
    Label(nat, Seq<char>),
    Nop(nat),
    Mov(nat, ValueView, ValueView),
    Fwd(nat),
    Rol(nat),
    Ror(nat),
    Sht(nat),
    Rld(nat),
    See(nat),
    Jmp(nat, ValueView),
    Je(nat, ValueView),
    Jg(nat, ValueView),
    Jl(nat, ValueView),
    Add(nat, ValueView, ValueView),
    Sub(nat, ValueView, ValueView),
    Cmp(nat, ValueView, ValueView),
    And(nat, ValueView, ValueView),
    Or(nat, ValueView, ValueView),
    Xor(nat, ValueView, ValueView),
    Not(nat, ValueView),
}

impl View for Instruction {
    type V = InstrView;

    open spec fn view(&self) -> InstrView {
        match self {
            Instruction::Label(l, s) => InstrView::Label(*l as nat, s@),
            Instruction::Nop(l) => InstrView::Nop(*l as nat),
            Instruction::Mov(l, a, b) => InstrView::Mov(*l as nat, a@, b@),
            Instruction::Fwd(l) => InstrView::Fwd(*l as nat),
            Instruction::Rol(l) => InstrView::Rol(*l as nat),
            Instruction::Ror(l) => InstrView::Ror(*l as nat),
            Instruction::Sht(l) => InstrView::Sht(*l as nat),
            Instruction::Rld(l) => InstrView::Rld(*l as nat),
            Instruction::See(l) => InstrView::See(*l as nat),
            Instruction::Jmp(l, v) => InstrView::Jmp(*l as nat, v@),
            Instruction::Je(l, v) => InstrView::Je(*l as nat, v@),
            Instruction::Jg(l, v) => InstrView::Jg(*l as nat, v@),
            Instruction::Jl(l, v) => InstrView::Jl(*l as nat, v@),
            Instruction::Add(l, a, b) => InstrView::Add(*l as nat, a@, b@),
            Instruction::Sub(l, a, b) => InstrView::Sub(*l as nat, a@, b@),
            Instruction::Cmp(l, a, b) => InstrView::Cmp(*l as nat, a@, b@),
            Instruction::And(l, a, b) => InstrView::And(*l as nat, a@, b@),
            Instruction::Or(l, a, b) => InstrView::Or(*l as nat, a@, b@),
            Instruction::Xor(l, a, b) => InstrView::Xor(*l as nat, a@, b@),
            Instruction::Not(l, v) => InstrView::Not(*l as nat, v@),
        }
    }
}

impl Clone for Instruction {
    fn clone(&self) -> (r: Instruction)
        ensures
            r@ == self@,
    {
        match self {
            Instruction::Label(l, s) => Instruction::Label(*l, s.clone()),
            Instruction::Nop(l) => Instruction::Nop(*l),
            Instruction::Mov(l, a, b) => Instruction::Mov(*l, a.clone(), b.clone()),
            Instruction::Fwd(l) => Instruction::Fwd(*l),
            Instruction::Rol(l) => Instruction::Rol(*l),
            Instruction::Ror(l) => Instruction::Ror(*l),
            Instruction::Sht(l) => Instruction::Sht(*l),
            Instruction::Rld(l) => Instruction::Rld(*l),
            Instruction::See(l) => Instruction::See(*l),
            Instruction::Jmp(l, v) => Instruction::Jmp(*l, v.clone()),
            Instruction::Je(l, v) => Instruction::Je(*l, v.clone()),
            Instruction::Jg(l, v) => Instruction::Jg(*l, v.clone()),
            Instruction::Jl(l, v) => Instruction::Jl(*l, v.clone()),
            Instruction::Add(l, a, b) => Instruction::Add(*l, a.clone(), b.clone()),
            Instruction::Sub(l, a, b) => Instruction::Sub(*l, a.clone(), b.clone()),
            Instruction::Cmp(l, a, b) => Instruction::Cmp(*l, a.clone(), b.clone()),
            Instruction::And(l, a, b) => Instruction::And(*l, a.clone(), b.clone()),
            Instruction::Or(l, a, b) => Instruction::Or(*l, a.clone(), b.clone()),
            Instruction::Xor(l, a, b) => Instruction::Xor(*l, a.clone(), b.clone()),
            Instruction::Not(l, v) => Instruction::Not(*l, v.clone()),
        }
    }
}

impl Instruction {
    /// The source line this instruction came from.
    pub fn source_line(&self) -> (l: usize)
        ensures
            l as nat == spec_instr_line(self@),
    {
        match self {
            Instruction::Label(l, _) => *l,
            Instruction::Nop(l) => *l,
            Instruction::Mov(l, _, _) => *l,
            Instruction::Fwd(l) => *l,
            Instruction::Rol(l) => *l,
            Instruction::Ror(l) => *l,
            Instruction::Sht(l) => *l,
            Instruction::Rld(l) => *l,
            Instruction::See(l) => *l,
            Instruction::Jmp(l, _) => *l,
            Instruction::Je(l, _) => *l,
            Instruction::Jg(l, _) => *l,
            Instruction::Jl(l, _) => *l,
            Instruction::Add(l, _, _) => *l,
            Instruction::Sub(l, _, _) => *l,
            Instruction::Cmp(l, _, _) => *l,
            Instruction::And(l, _, _) => *l,
            Instruction::Or(l, _, _) => *l,
            Instruction::Xor(l, _, _) => *l,
            Instruction::Not(l, _) => *l,
        }
    }
}

/// The image of an instruction vector.
pub open spec fn instrs_view(s: Seq<Instruction>) -> Seq<InstrView> {
    s.map_values(|x: Instruction| x@)
}

/// The source line an instruction came from.
pub open spec fn spec_instr_line(ins: InstrView) -> nat {
    match ins {
        InstrView::Label(l, _) => l,
        InstrView::Nop(l) => l,
        InstrView::Mov(l, _, _) => l,
        InstrView::Fwd(l) => l,
        InstrView::Rol(l) => l,
        InstrView::Ror(l) => l,
        InstrView::Sht(l) => l,
        InstrView::Rld(l) => l,
        InstrView::See(l) => l,
        InstrView::Jmp(l, _) => l,
        InstrView::Je(l, _) => l,
        InstrView::Jg(l, _) => l,
        InstrView::Jl(l, _) => l,
        InstrView::Add(l, _, _) => l,
        InstrView::Sub(l, _, _) => l,
        InstrView::Cmp(l, _, _) => l,
        InstrView::And(l, _, _) => l,
        InstrView::Or(l, _, _) => l,
        InstrView::Xor(l, _, _) => l,
        InstrView::Not(l, _) => l,
    }
}

/// Whether an item is a label pseudo-instruction.
pub open spec fn is_label_instr(ins: InstrView) -> bool {
    ins is Label
}

/// The value of a run of decimal digits, folded left to right modulo
/// 2^16 (a literal too wide for 16 bits wraps around, in keeping with the
/// machine's 16-bit wraparound arithmetic).
pub open spec fn spec_digits_u16(s: Seq<char>) -> u16
    decreases s.len(),
{
    if s.len() == 0 {
        0
    } else {
        (((spec_digits_u16(s.drop_last()) as int) * 10 + (s.last() as int - 48))
            % 0x10000) as u16
    }
}

/// The plain decimal value of a digit run, unbounded.
pub open spec fn spec_decimal(s: Seq<char>) -> int
    decreases s.len(),
{
    if s.len() == 0 {
        0
    } else {
        spec_decimal(s.drop_last()) * 10 + (s.last() as int - 48)
    }
}

proof fn lemma_decimal_nonneg(s: Seq<char>)
    requires
        forall|k: int| 0 <= k < s.len() ==> is_digit_char(#[trigger] s[k]),
    ensures
        spec_decimal(s) >= 0,
    decreases s.len(),
{
    if s.len() > 0 {
        assert(forall|k: int|
            0 <= k < s.drop_last().len() ==> is_digit_char(#[trigger] s.drop_last()[k]));
        lemma_decimal_nonneg(s.drop_last());
        assert(is_digit_char(s.last()));
    }
}

/// A decimal literal that fits in 16 bits is read exactly; only wider
/// literals wrap.
pub proof fn lemma_digits_value_exact(s: Seq<char>)
    requires
        forall|k: int| 0 <= k < s.len() ==> is_digit_char(#[trigger] s[k]),
        spec_decimal(s) < 0x10000,
    ensures
        spec_digits_u16(s) as int == spec_decimal(s),
    decreases s.len(),
{
    if s.len() > 0 {
        let p = s.drop_last();
        assert(forall|k: int| 0 <= k < p.len() ==> is_digit_char(#[trigger] p[k]));
        lemma_decimal_nonneg(p);
        assert(is_digit_char(s.last()));
        assert(spec_decimal(s) == spec_decimal(p) * 10 + (s.last() as int - 48));
        assert(spec_decimal(p) < 0x10000);
        lemma_digits_value_exact(p);
    }
}

fn parse_u16_digits(v: &str) -> (r: u16)
    requires
        forall|k: int| 0 <= k < v@.len() ==> is_digit_char(#[trigger] v@[k]),
    ensures
        r == spec_digits_u16(v@),
{
    let n: usize = v.unicode_len();
    let mut r: u16 = 0;
    let mut k: usize = 0;
    while k < n
        invariant
            0 <= k <= n,
            n == v@.len(),
            forall|m: int| 0 <= m < v@.len() ==> is_digit_char(#[trigger] v@[m]),
            r == spec_digits_u16(v@.subrange(0, k as int)),
        decreases n - k,
    {
        let c = v.get_char(k);
        assert(is_digit_char(c));
        let d: u32 = (c as u32) - 48;
        let t: u32 = (r as u32) * 10 + d;
        r = (t % 0x10000) as u16;
        k = k + 1;
        proof {
            let pre = v@.subrange(0, k - 1);
            let cur = v@.subrange(0, k as int);
            assert(cur.drop_last() == pre);
            assert(cur.last() == c);
        }
    }
    proof {
        assert(v@.subrange(0, n as int) == v@);
    }
    r
}

/// The operand a token stands for. A register token keeps its register
/// name, a digit-run token becomes its 16-bit literal, an identifier token
/// stays an unresolved label reference; an opcode or punctuator token has
/// no operand reading and falls back to an error identifier.
pub open spec fn spec_token_value(t: TokenView) -> ValueView {
    match t.t {
        TokenType::Register => ValueView::Register(t.value),
        TokenType::Immediate => ValueView::Immediate(spec_digits_u16(t.value) as i16),
        TokenType::Identifier => ValueView::Identifier(t.value),
        _ => ValueView::Identifier("ERROR"@),
    }
}

fn token_to_value(tok: &Token) -> (v: Value)
    requires
        token_wf(tok@),
    ensures
        v@ == spec_token_value(tok@),
{
    match tok.t {
        TokenType::Register => Value::Register(tok.value.clone()),
        TokenType::Immediate => Value::Immediate(parse_u16_digits(tok.value.as_str()) as i16),
        TokenType::Identifier => Value::Identifier(tok.value.clone()),
        _ => Value::Identifier(String::from_str("ERROR")),
    }
}

/// Whether the detected operand count covers what an opcode expects.
fn check_arg_c(arg_c: usize, expected: usize) -> (r: bool)
    ensures
        r == (arg_c >= expected),
{
    arg_c >= expected
}

/// A token that cannot begin an operand.
pub open spec fn ends_operands(t: TokenView) -> bool {
    t.t == TokenType::Opcode || t.t == TokenType::Punctuator
}

/// Tokens match on text and kind; the comma that separates two operands.
pub open spec fn is_comma_token(t: TokenView) -> bool {
    t.value == ","@ && t.t == TokenType::Punctuator
}

/// The colon that ends a label definition.
pub open spec fn is_colon_token(t: TokenView) -> bool {
    t.value == ":"@ && t.t == TokenType::Punctuator
}

/// The operand count detected by lookahead from the opcode at `j`: two if
/// a non-opcode, non-punctuator token follows, then a comma, then another
/// such token; one if only the first follows; zero otherwise.
pub open spec fn spec_arg_count(toks: Seq<TokenView>, j: int) -> int {
    if j + 1 < toks.len() && !ends_operands(toks[j + 1]) {
        if j + 3 < toks.len() && is_comma_token(toks[j + 2]) && !ends_operands(toks[j + 3]) {
            2
        } else {
            1
        }
    } else {
        0
    }
}

/// One instruction match at token position `j`: the recognised instruction
/// and the position after its tokens, or nothing when no instruction is
/// recognised there (including an opcode whose expected operand count is
/// not covered).
pub open spec fn spec_p_instruction(toks: Seq<TokenView>, j: int) -> Option<(InstrView, int)> {
    if 0 <= j < toks.len() && toks[j].t == TokenType::Opcode {
        let line = toks[j].line;
        let name = toks[j].value;
        let argc = spec_arg_count(toks, j);
        if name == "nop"@ {
            Some((InstrView::Nop(line), j + 1))
        } else if name == "mov"@ {
            if argc >= 2 {
                Some(
                    (
                        InstrView::Mov(
                            line,
                            spec_token_value(toks[j + 1]),
                            spec_token_value(toks[j + 3]),
                        ),
                        j + 4,
                    ),
                )
            } else {
                None
            }
        } else if name == "fwd"@ {
            Some((InstrView::Fwd(line), j + 1))
        } else if name == "rol"@ {
            Some((InstrView::Rol(line), j + 1))
        } else if name == "ror"@ {
            Some((InstrView::Ror(line), j + 1))
        } else if name == "sht"@ {
            Some((InstrView::Sht(line), j + 1))
        } else if name == "rld"@ {
            Some((InstrView::Rld(line), j + 1))
        } else if name == "see"@ {
            Some((InstrView::See(line), j + 1))
        } else if name == "jmp"@ {
            if argc >= 1 {
                Some((InstrView::Jmp(line, spec_token_value(toks[j + 1])), j + 2))
            } else {
                None
            }
        } else if name == "je"@ {
            if argc >= 1 {
                Some((InstrView::Je(line, spec_token_value(toks[j + 1])), j + 2))
            } else {
                None
            }
        } else if name == "jg"@ {
            if argc >= 1 {
                Some((InstrView::Jg(line, spec_token_value(toks[j + 1])), j + 2))
            } else {
                None
            }
        } else if name == "jl"@ {
            if argc >= 1 {
                Some((InstrView::Jl(line, spec_token_value(toks[j + 1])), j + 2))
            } else {
                None
            }
        } else if name == "add"@ {
            if argc >= 2 {
                Some(
                    (
                        InstrView::Add(
                            line,
                            spec_token_value(toks[j + 1]),
                            spec_token_value(toks[j + 3]),
                        ),
                        j + 4,
                    ),
                )
            } else {
                None
            }
        } else if name == "sub"@ {
            if argc >= 2 {
                Some(
                    (
                        InstrView::Sub(
                            line,
                            spec_token_value(toks[j + 1]),
                            spec_token_value(toks[j + 3]),
                        ),
                        j + 4,
                    ),
                )
            } else {
                None
            }
        } else if name == "cmp"@ {
            if argc >= 2 {
                Some(
                    (
                        InstrView::Cmp(
                            line,
                            spec_token_value(toks[j + 1]),
                            spec_token_value(toks[j + 3]),
                        ),
                        j + 4,
                    ),
                )
            } else {
                None
            }
        } else if name == "and"@ {
            if argc >= 2 {
                Some(
                    (
                        InstrView::And(
                            line,
                            spec_token_value(toks[j + 1]),
                            spec_token_value(toks[j + 3]),
                        ),
                        j + 4,
                    ),
                )
            } else {
                None
            }
        } else if name == "or"@ {
            if argc >= 2 {
                Some(
                    (
                        InstrView::Or(
                            line,
                            spec_token_value(toks[j + 1]),
                            spec_token_value(toks[j + 3]),
                        ),
                        j + 4,
                    ),
                )
            } else {
                None
            }
        } else if name == "xor"@ {
            if argc >= 2 {
                Some(
                    (
                        InstrView::Xor(
                            line,
                            spec_token_value(toks[j + 1]),
                            spec_token_value(toks[j + 3]),
                        ),
                        j + 4,
                    ),
                )
            } else {
                None
            }
        } else if name == "not"@ {
            if argc >= 1 {
                Some((InstrView::Not(line, spec_token_value(toks[j + 1])), j + 2))
            } else {
                None
            }
        } else {
            None
        }
    } else {
        None
    }
}

/// One label-definition match at token position `j`: an identifier token
/// directly followed by a colon.
pub open spec fn spec_p_label(toks: Seq<TokenView>, j: int) -> Option<(InstrView, int)> {
    if 0 <= j && j + 1 < toks.len() && toks[j].t == TokenType::Identifier && is_colon_token(
        toks[j + 1],
    ) {
        Some((InstrView::Label(toks[j].line, toks[j].value), j + 2))
    } else {
        None
    }
}

pub proof fn lemma_p_instruction_advances(toks: Seq<TokenView>, j: int)
    ensures
        spec_p_instruction(toks, j) matches Some(p) ==> j < p.1 <= toks.len(),
        spec_p_label(toks, j) matches Some(p) ==> j < p.1 <= toks.len(),
{
}

/// The raw item sequence of the single forward pass: instructions and
/// label pseudo-instructions in source order, cut off at the first
/// position where neither matches.
pub open spec fn spec_parse_items(toks: Seq<TokenView>, j: int) -> Seq<InstrView>
    decreases toks.len() - j
    when 0 <= j
{
    if spec_p_instruction(toks, j) is Some {
        let (ins, j2) = spec_p_instruction(toks, j)->Some_0;
        proof {
            lemma_p_instruction_advances(toks, j);
        }
        seq![ins] + spec_parse_items(toks, j2)
    } else if spec_p_label(toks, j) is Some {
        let (lab, j2) = spec_p_label(toks, j)->Some_0;
        proof {
            lemma_p_instruction_advances(toks, j);
        }
        seq![lab] + spec_parse_items(toks, j2)
    } else {
        Seq::empty()
    }
}

/// The instruction counter after the given items, as the parser keeps it:
/// a 16-bit count that labels do not advance, wrapping around like every
/// other 16-bit quantity of the machine.
pub open spec fn spec_inst_count(items: Seq<InstrView>) -> i16
    decreases items.len(),
{
    if items.len() == 0 {
        0
    } else {
        let p = spec_inst_count(items.drop_last());
        if is_label_instr(items.last()) {
            p
        } else {
            wrap_inc_i16(p)
        }
    }
}

/// A 16-bit increment with wraparound.
pub open spec fn wrap_inc_i16(p: i16) -> i16 {
    if p == i16::MAX {
        i16::MIN
    } else {
        (p + 1) as i16
    }
}

/// The label table in definition order: each label name with the
/// instruction counter's value at the moment it was parsed — the address
/// of the instruction that follows it.
pub open spec fn spec_label_table(items: Seq<InstrView>) -> Seq<(Seq<char>, i16)>
    decreases items.len(),
{
    if items.len() == 0 {
        Seq::empty()
    } else {
        let t = spec_label_table(items.drop_last());
        match items.last() {
            InstrView::Label(_, name) => t.push((name, spec_inst_count(items.drop_last()))),
            _ => t,
        }
    }
}

/// The address a label reference resolves to: the last matching
/// definition wins; a name never defined resolves to 0.
pub open spec fn spec_table_lookup(table: Seq<(Seq<char>, i16)>, id: Seq<char>) -> i16
    decreases table.len(),
{
    if table.len() == 0 {
        0
    } else if table.last().0 == id {
        table.last().1
    } else {
        spec_table_lookup(table.drop_last(), id)
    }
}

/// Rewrites the operand of a jump that still holds an identifier to the
/// immediate address the label table gives it; every other item is kept
/// as it is.
pub open spec fn spec_resolve_with(table: Seq<(Seq<char>, i16)>, ins: InstrView) -> InstrView {
    match ins {
        InstrView::Jmp(l, ValueView::Identifier(id)) => InstrView::Jmp(
            l,
            ValueView::Immediate(spec_table_lookup(table, id)),
        ),
        InstrView::Je(l, ValueView::Identifier(id)) => InstrView::Je(
            l,
            ValueView::Immediate(spec_table_lookup(table, id)),
        ),
        InstrView::Jg(l, ValueView::Identifier(id)) => InstrView::Jg(
            l,
            ValueView::Immediate(spec_table_lookup(table, id)),
        ),
        InstrView::Jl(l, ValueView::Identifier(id)) => InstrView::Jl(
            l,
            ValueView::Immediate(spec_table_lookup(table, id)),
        ),
        _ => ins,
    }
}

/// Every item rewritten through the label table.
pub open spec fn spec_resolve_all(table: Seq<(Seq<char>, i16)>, items: Seq<InstrView>) -> Seq<
    InstrView,
> {
    items.map_values(|ins: InstrView| spec_resolve_with(table, ins))
}

/// The items with the label pseudo-instructions removed.
pub open spec fn spec_strip_labels(items: Seq<InstrView>) -> Seq<InstrView> {
    items.filter(|ins: InstrView| !is_label_instr(ins))
}

/// What `parse` produces from a source text: the items of the forward
/// pass, jump operands resolved through the label table, labels stripped.
pub open spec fn spec_parse(s: Seq<char>) -> Seq<InstrView> {
    let items = spec_parse_items(spec_lex(s), 0);
    spec_strip_labels(spec_resolve_all(spec_label_table(items), items))
}

/// No unresolved label reference sits in a jump operand.
pub open spec fn spec_jumps_resolved(ins: InstrView) -> bool {
    match ins {
        InstrView::Jmp(_, v) => !(v is Identifier),
        InstrView::Je(_, v) => !(v is Identifier),
        InstrView::Jg(_, v) => !(v is Identifier),
        InstrView::Jl(_, v) => !(v is Identifier),
        _ => true,
    }
}

proof fn lemma_filter_all(
    s: Seq<InstrView>,
    pred: spec_fn(InstrView) -> bool,
    prop: spec_fn(InstrView) -> bool,
)
    requires
        forall|k: int| 0 <= k < s.len() ==> prop(#[trigger] s[k]),
    ensures
        forall|k: int| 0 <= k < s.filter(pred).len() ==> prop(#[trigger] s.filter(pred)[k]),
    decreases s.len(),
{
    reveal(Seq::filter);
    if s.len() > 0 {
        let d = s.drop_last();
        assert(forall|k: int| 0 <= k < d.len() ==> prop(#[trigger] d[k]));
        lemma_filter_all(d, pred, prop);
        assert forall|k: int|
            0 <= k < s.filter(pred).len() implies prop(#[trigger] s.filter(pred)[k]) by {
            if pred(s.last()) {
                assert(s.filter(pred) == d.filter(pred).push(s.last()));
                if k < d.filter(pred).len() {
                    assert(prop(d.filter(pred)[k]));
                } else {
                    assert(prop(s.last()));
                }
            } else {
                assert(s.filter(pred) == d.filter(pred));
                assert(prop(d.filter(pred)[k]));
            }
        }
    }
}

/// Law: what `parse` hands back is directly executable — no label
/// pseudo-instruction survives the strip, and every jump operand that
/// was a label reference has been rewritten to an immediate address.
pub proof fn lemma_parse_output_executable(s: Seq<char>)
    ensures
        forall|k: int|
            0 <= k < spec_parse(s).len() ==> !is_label_instr(#[trigger] spec_parse(s)[k]),
        forall|k: int|
            0 <= k < spec_parse(s).len() ==> spec_jumps_resolved(#[trigger] spec_parse(s)[k]),
{
    let items = spec_parse_items(spec_lex(s), 0);
    let table = spec_label_table(items);
    let resolved = spec_resolve_all(table, items);
    assert forall|k: int|
        0 <= k < resolved.len() implies spec_jumps_resolved(#[trigger] resolved[k]) by {
        assert(resolved[k] == spec_resolve_with(table, items[k]));
    }
    lemma_filter_all(
        resolved,
        |ins: InstrView| !is_label_instr(ins),
        |ins: InstrView| spec_jumps_resolved(ins),
    );
    lemma_filter_all(
        resolved,
        |ins: InstrView| !is_label_instr(ins),
        |ins: InstrView| true,
    );
    assert forall|k: int|
        0 <= k < spec_parse(s).len() implies !is_label_instr(#[trigger] spec_parse(s)[k]) by {
        resolved.lemma_filter_pred(|ins: InstrView| !is_label_instr(ins), k);
    }
    assert forall|k: int|
        0 <= k < spec_parse(s).len() implies spec_jumps_resolved(#[trigger] spec_parse(s)[k])
        by {
        let p = |ins: InstrView| !is_label_instr(ins);
        let q = |ins: InstrView| spec_jumps_resolved(ins);
        assert(spec_parse(s) == resolved.filter(p));
        assert(q(resolved.filter(p)[k]));
    }
}

fn tok_is_comma(t: &Token) -> (r: bool)
    ensures
        r == is_comma_token(t@),
{
    t.t == TokenType::Punctuator && str_eq(t.value.as_str(), ",")
}

fn tok_is_colon(t: &Token) -> (r: bool)
    ensures
        r == is_colon_token(t@),
{
    t.t == TokenType::Punctuator && str_eq(t.value.as_str(), ":")
}

/// Tries to recognise one instruction at token position `*i`; on success
/// `*i` moves past its tokens.
fn p_instruction(toks: &Vec<Token>, i: &mut usize) -> (r: Option<Instruction>)
    requires
        *old(i) <= toks@.len(),
        wf_tokens(tokens_view(toks@)),
    ensures
        ({
            let m = spec_p_instruction(tokens_view(toks@), *old(i) as int);
            match m {
                Some(p) => r matches Some(ins) && ins@ == p.0 && *final(i) == p.1,
                None => r is None && *final(i) == *old(i),
            }
        }),
{
    let ghost toksv = tokens_view(toks@);
    let j: usize = *i;
    let n: usize = toks.len();
    if n > j && toks[j].t == TokenType::Opcode {
        let mut arg_c: usize = 0;
        if n - j > 1 && !(toks[j + 1].t == TokenType::Opcode) && !(toks[j + 1].t
            == TokenType::Punctuator) {
            if n - j > 3 && tok_is_comma(&toks[j + 2]) && !(toks[j + 3].t == TokenType::Opcode)
                && !(toks[j + 3].t == TokenType::Punctuator) {
                arg_c = 2;
            } else {
                arg_c = 1;
            }
        }
        assert(arg_c as int == spec_arg_count(toksv, j as int));
        let line: usize = toks[j].line;
        let name: &str = toks[j].value.as_str();
        if str_eq(name, "nop") {
            if check_arg_c(arg_c, 0) {
                *i = j + 1;
                Some(Instruction::Nop(line))
            } else {
                None
            }
        } else if str_eq(name, "mov") {
            if check_arg_c(arg_c, 2) {
                let a = token_to_value(&toks[j + 1]);
                let b = token_to_value(&toks[j + 3]);
                *i = j + 4;
                Some(Instruction::Mov(line, a, b))
            } else {
                None
            }
        } else if str_eq(name, "fwd") {
            if check_arg_c(arg_c, 0) {
                *i = j + 1;
                Some(Instruction::Fwd(line))
            } else {
                None
            }
        } else if str_eq(name, "rol") {
            if check_arg_c(arg_c, 0) {
                *i = j + 1;
                Some(Instruction::Rol(line))
            } else {
                None
            }
        } else if str_eq(name, "ror") {
            if check_arg_c(arg_c, 0) {
                *i = j + 1;
                Some(Instruction::Ror(line))
            } else {
                None
            }
        } else if str_eq(name, "sht") {
            if check_arg_c(arg_c, 0) {
                *i = j + 1;
                Some(Instruction::Sht(line))
            } else {
                None
            }
        } else if str_eq(name, "rld") {
            if check_arg_c(arg_c, 0) {
                *i = j + 1;
                Some(Instruction::Rld(line))
            } else {
                None
            }
        } else if str_eq(name, "see") {
            if check_arg_c(arg_c, 0) {
                *i = j + 1;
                Some(Instruction::See(line))
            } else {
                None
            }
        } else if str_eq(name, "jmp") {
            if check_arg_c(arg_c, 1) {
                let v = token_to_value(&toks[j + 1]);
                *i = j + 2;
                Some(Instruction::Jmp(line, v))
            } else {
                None
            }
        } else if str_eq(name, "je") {
            if check_arg_c(arg_c, 1) {
                let v = token_to_value(&toks[j + 1]);
                *i = j + 2;
                Some(Instruction::Je(line, v))
            } else {
                None
            }
        } else if str_eq(name, "jg") {
            if check_arg_c(arg_c, 1) {
                let v = token_to_value(&toks[j + 1]);
                *i = j + 2;
                Some(Instruction::Jg(line, v))
            } else {
                None
            }
        } else if str_eq(name, "jl") {
            if check_arg_c(arg_c, 1) {
                let v = token_to_value(&toks[j + 1]);
                *i = j + 2;
                Some(Instruction::Jl(line, v))
            } else {
                None
            }
        } else if str_eq(name, "add") {
            if check_arg_c(arg_c, 2) {
                let a = token_to_value(&toks[j + 1]);
                let b = token_to_value(&toks[j + 3]);
                *i = j + 4;
                Some(Instruction::Add(line, a, b))
            } else {
                None
            }
        } else if str_eq(name, "sub") {
            if check_arg_c(arg_c, 2) {
                let a = token_to_value(&toks[j + 1]);
                let b = token_to_value(&toks[j + 3]);
                *i = j + 4;
                Some(Instruction::Sub(line, a, b))
            } else {
                None
            }
        } else if str_eq(name, "cmp") {
            if check_arg_c(arg_c, 2) {
                let a = token_to_value(&toks[j + 1]);
                let b = token_to_value(&toks[j + 3]);
                *i = j + 4;
                Some(Instruction::Cmp(line, a, b))
            } else {
                None
            }
        } else if str_eq(name, "and") {
            if check_arg_c(arg_c, 2) {
                let a = token_to_value(&toks[j + 1]);
                let b = token_to_value(&toks[j + 3]);
                *i = j + 4;
                Some(Instruction::And(line, a, b))
            } else {
                None
            }
        } else if str_eq(name, "or") {
            if check_arg_c(arg_c, 2) {
                let a = token_to_value(&toks[j + 1]);
                let b = token_to_value(&toks[j + 3]);
                *i = j + 4;
                Some(Instruction::Or(line, a, b))
            } else {
                None
            }
        } else if str_eq(name, "xor") {
            if check_arg_c(arg_c, 2) {
                let a = token_to_value(&toks[j + 1]);
                let b = token_to_value(&toks[j + 3]);
                *i = j + 4;
                Some(Instruction::Xor(line, a, b))
            } else {
                None
            }
        } else if str_eq(name, "not") {
            if check_arg_c(arg_c, 1) {
                let v = token_to_value(&toks[j + 1]);
                *i = j + 2;
                Some(Instruction::Not(line, v))
            } else {
                None
            }
        } else {
            None
        }
    } else {
        None
    }
}

/// Tries to recognise one label definition at token position `*i`; on
/// success `*i` moves past the identifier and the colon.
fn p_label(toks: &Vec<Token>, i: &mut usize) -> (r: Option<Instruction>)
    requires
        *old(i) <= toks@.len(),
    ensures
        ({
            let m = spec_p_label(tokens_view(toks@), *old(i) as int);
            match m {
                Some(p) => r matches Some(ins) && ins@ == p.0 && *final(i) == p.1,
                None => r is None && *final(i) == *old(i),
            }
        }),
{
    let j: usize = *i;
    let n: usize = toks.len();
    if n > j && n - j > 1 && toks[j].t == TokenType::Identifier && tok_is_colon(&toks[j + 1]) {
        *i = j + 2;
        Some(Instruction::Label(toks[j].line, toks[j].value.clone()))
    } else {
        None
    }
}

/// The image of the label table.
pub open spec fn table_view(t: Seq<(String, i16)>) -> Seq<(Seq<char>, i16)> {
    t.map_values(|p: (String, i16)| (p.0@, p.1))
}

/// A 16-bit increment with wraparound, as the instruction counter uses it.
fn wrap_inc16(p: i16) -> (r: i16)
    ensures
        r == wrap_inc_i16(p),
{
    if p == i16::MAX {
        i16::MIN
    } else {
        p + 1
    }
}

/// The address the label table gives a name: a linear scan with no early
/// exit, so the last matching definition wins; 0 when none matches.
fn lookup_label(table: &Vec<(String, i16)>, id: &String) -> (ip: i16)
    ensures
        ip == spec_table_lookup(table_view(table@), id@),
{
    let ghost tv = table_view(table@);
    let mut ip: i16 = 0;
    let mut k: usize = 0;
    while k < table.len()
        invariant
            0 <= k <= table@.len(),
            tv == table_view(table@),
            tv.len() == table@.len(),
            ip == spec_table_lookup(tv.subrange(0, k as int), id@),
        decreases table@.len() - k,
    {
        if table[k].0 == *id {
            ip = table[k].1;
        }
        k = k + 1;
        proof {
            assert(tv.subrange(0, k as int).drop_last() == tv.subrange(0, k - 1));
            assert(tv.subrange(0, k as int).last() == tv[k - 1]);
        }
    }
    proof {
        assert(tv.subrange(0, table@.len() as int) == tv);
    }
    ip
}

/// Rewrites one item through the label table: a jump whose operand is
/// still an identifier gets the resolved immediate address.
fn resolve_one(ins: &Instruction, table: &Vec<(String, i16)>) -> (r: Instruction)
    ensures
        r@ == spec_resolve_with(table_view(table@), ins@),
{
    match ins {
        Instruction::Jmp(l, Value::Identifier(id)) => Instruction::Jmp(
            *l,
            Value::Immediate(lookup_label(table, id)),
        ),
        Instruction::Je(l, Value::Identifier(id)) => Instruction::Je(
            *l,
            Value::Immediate(lookup_label(table, id)),
        ),
        Instruction::Jg(l, Value::Identifier(id)) => Instruction::Jg(
            *l,
            Value::Immediate(lookup_label(table, id)),
        ),
        Instruction::Jl(l, Value::Identifier(id)) => Instruction::Jl(
            *l,
            Value::Immediate(lookup_label(table, id)),
        ),
        _ => ins.clone(),
    }
}

/// Compiles source text to its executable instruction list: lex, one
/// forward parsing pass, label resolution, label removal.
///
/// Parsing never fails: at the first position where neither an
/// instruction nor a label definition matches, the rest of the source is
/// discarded and the valid prefix is returned.
pub fn parse(source: &String) -> (out: Vec<Instruction>)
    ensures
        instrs_view(out@) == spec_parse(source@),
{
    let tokens = lex(source);
    proof {
        lemma_lex_wf(source@);
    }
    let ghost toksv = tokens_view(tokens@);
    let mut out: Vec<Instruction> = Vec::new();
    let mut i: usize = 0;
    let mut label_table: Vec<(String, i16)> = Vec::new();
    let mut inst_count: i16 = 0;
    let mut done: bool = false;

    while !done
        invariant
            i <= tokens@.len(),
            toksv == tokens_view(tokens@),
            wf_tokens(toksv),
            spec_parse_items(toksv, 0) == instrs_view(out@) + spec_parse_items(toksv, i as int),
            table_view(label_table@) == spec_label_table(instrs_view(out@)),
            inst_count == spec_inst_count(instrs_view(out@)),
            done ==> spec_parse_items(toksv, i as int) =~= Seq::<InstrView>::empty(),
        decreases tokens@.len() - i, if done {
            0int
        } else {
            1int
        },
    {
        let ghost items0 = instrs_view(out@);
        let ghost i0 = i as int;
        match p_instruction(&tokens, &mut i) {
            Some(ins) => {
                let ghost insv = ins@;
                inst_count = wrap_inc16(inst_count);
                out.push(ins);
                proof {
                    assert(instrs_view(out@) =~= items0.push(insv));
                    assert(spec_parse_items(toksv, i0) == seq![insv] + spec_parse_items(
                        toksv,
                        i as int,
                    ));
                    assert(items0 + spec_parse_items(toksv, i0) =~= items0.push(insv)
                        + spec_parse_items(toksv, i as int));
                    assert(items0.push(insv).drop_last() == items0);
                    assert(!is_label_instr(items0.push(insv).last()));
                    assert(table_view(label_table@) == spec_label_table(instrs_view(out@)));
                    assert(inst_count == spec_inst_count(instrs_view(out@)));
                }
            },
            None => {
                match p_label(&tokens, &mut i) {
                    Some(lab) => {
                        let ghost labv = lab@;
                        if let Instruction::Label(_, id) = &lab {
                            label_table.push((id.clone(), inst_count));
                        }
                        out.push(lab);
                        proof {
                            assert(instrs_view(out@) =~= items0.push(labv));
                            assert(spec_parse_items(toksv, i0) == seq![labv] + spec_parse_items(
                                toksv,
                                i as int,
                            ));
                            assert(items0 + spec_parse_items(toksv, i0) =~= items0.push(labv)
                                + spec_parse_items(toksv, i as int));
                            assert(items0.push(labv).drop_last() == items0);
                            assert(table_view(label_table@) =~= spec_label_table(
                                instrs_view(out@),
                            ));
                            assert(inst_count == spec_inst_count(instrs_view(out@)));
                        }
                    },
                    None => {
                        done = true;
                    },
                }
            },
        }
    }

    let ghost items = instrs_view(out@);
    proof {
        assert(items + spec_parse_items(toksv, i as int) =~= items);
        assert(items == spec_parse_items(toksv, 0));
    }
    let ghost table = spec_label_table(items);
    assert(table_view(label_table@) == table);

    // Resolve every jump operand that still holds an identifier.
    let mut resolved: Vec<Instruction> = Vec::new();
    let mut k: usize = 0;
    while k < out.len()
        invariant
            0 <= k <= out@.len(),
            items == instrs_view(out@),
            table == table_view(label_table@),
            instrs_view(resolved@) == spec_resolve_all(table, items.subrange(0, k as int)),
        decreases out@.len() - k,
    {
        let ghost res0 = instrs_view(resolved@);
        let r = resolve_one(&out[k], &label_table);
        let ghost rv = r@;
        resolved.push(r);
        k = k + 1;
        proof {
            assert(instrs_view(resolved@) =~= res0.push(rv));
            assert(items.subrange(0, k as int).drop_last() == items.subrange(0, k - 1));
            assert(items.subrange(0, k as int).last() == items[k - 1]);
            assert(instrs_view(resolved@) =~= spec_resolve_all(
                table,
                items.subrange(0, k as int),
            ));
        }
    }
    proof {
        assert(items.subrange(0, items.len() as int) == items);
    }
    let ghost resolvedv = instrs_view(resolved@);

    // Remove the label pseudo-instructions; because labels never advanced
    // the instruction counter, addressing is unaffected.
    let mut stripped: Vec<Instruction> = Vec::new();
    proof {
        reveal(Seq::filter);
        assert(instrs_view(stripped@) =~= spec_strip_labels(resolvedv.subrange(0, 0)));
    }
    let mut k2: usize = 0;
    while k2 < resolved.len()
        invariant
            0 <= k2 <= resolved@.len(),
            resolvedv == instrs_view(resolved@),
            instrs_view(stripped@) == spec_strip_labels(resolvedv.subrange(0, k2 as int)),
        decreases resolved@.len() - k2,
    {
        let ghost str0 = instrs_view(stripped@);
        let keep: bool = !(matches!(&resolved[k2], Instruction::Label(..)));
        if keep {
            let r = resolved[k2].clone();
            stripped.push(r);
        }
        k2 = k2 + 1;
        proof {
            reveal(Seq::filter);
            assert(resolvedv.subrange(0, k2 as int).drop_last() == resolvedv.subrange(
                0,
                k2 - 1,
            ));
            assert(resolvedv.subrange(0, k2 as int).last() == resolvedv[k2 - 1]);
            if keep {
                assert(instrs_view(stripped@) =~= str0.push(resolvedv[k2 - 1]));
            }
            assert(instrs_view(stripped@) =~= spec_strip_labels(
                resolvedv.subrange(0, k2 as int),
            ));
        }
    }
    proof {
        assert(resolvedv.subrange(0, resolvedv.len() as int) == resolvedv);
    }
    stripped
}

} // verus!
