use vstd::prelude::*;

use crate::compiler::gate_named;
use crate::error::SimError;
use crate::text::{
    all_digits, brackets_to_spaces, brackets_to_spaces_exec, chars_of, equals_exec,
    find_char_exec, find_double_eq_exec, first_double_eq, first_of, is_float_literal,
    is_float_literal_exec, last_of, last_of_exec, lemma_first_double_eq, lemma_first_of,
    parse_u32_exec, parse_unsigned, parse_usize_exec, remove_char, remove_char_exec,
    remove_if_word, remove_if_word_exec, slice_chars, split_char, split_char_exec, split_ws,
    split_ws_exec, starts_with, starts_with_exec, string_from_chars, trim, trim_end_char,
    trim_end_char_exec, trim_exec, views,
};

verus! {

/// Largest number of operations a compiled program holds.
pub const MAX_INSTRUCTIONS: usize = 128;

/// The logical single-qubit gates with precompiled braid words.
#[derive(Debug, Clone, Copy, PartialEq, Eq, Structural)]
pub enum LogicalGateKind {
    H,
    T,
    X,
}

/// One operation of a compiled OpenQASM program. Rotation angles and unitary entries are
/// kept as the floating-point literals the program wrote.
#[derive(Debug)]
pub enum QasmInstruction {
    Braid { id_a: usize, id_b: usize },
    Measure { target: usize, creg: usize },
    ConditionalBraid { creg: usize, val: u32, id_a: usize, id_b: usize },
    DecodeAndCorrect,
    MeasureStabilizer { stabilizer_idx: usize, creg: usize },
    LogicalGate { gate: LogicalGateKind, target_qubit: usize },
    LogicalCNOT { control_qubit: usize, target_qubit: usize },
    /// `rz(angle) q[n]`: the angle literal, in units of pi.
    RzPhase { angle_multiplier: String, target_qubit: usize },
    /// `rx(angle) q[n]`: the angle literal, in units of pi.
    RxPhase { angle_multiplier: String, target_qubit: usize },
    /// `unitary4(...)`: the 32 literals, real and imaginary part of each entry, row-major.
    ArbitraryUnitary4 { matrix_data: Vec<String> },
}

/// The mathematical content of an operation.
pub enum QasmOp {
    Braid { id_a: usize, id_b: usize },
    Measure { target: usize, creg: usize },
    ConditionalBraid { creg: usize, val: u32, id_a: usize, id_b: usize },
    DecodeAndCorrect,
    MeasureStabilizer { stabilizer_idx: usize, creg: usize },
    LogicalGate { gate: LogicalGateKind, target_qubit: usize },
    LogicalCNOT { control_qubit: usize, target_qubit: usize },
    RzPhase { angle: Seq<char>, target_qubit: usize },
    RxPhase { angle: Seq<char>, target_qubit: usize },
    ArbitraryUnitary4 { entries: Seq<Seq<char>> },
}

impl View for QasmInstruction {
    type V = QasmOp;

    open spec fn view(&self) -> QasmOp {
        match self {
            QasmInstruction::Braid { id_a, id_b } => QasmOp::Braid { id_a: *id_a, id_b: *id_b },
            QasmInstruction::Measure { target, creg } => QasmOp::Measure {
                target: *target,
                creg: *creg,
            },
            QasmInstruction::ConditionalBraid { creg, val, id_a, id_b } => QasmOp::ConditionalBraid {
                creg: *creg,
                val: *val,
                id_a: *id_a,
                id_b: *id_b,
            },
            QasmInstruction::DecodeAndCorrect => QasmOp::DecodeAndCorrect,
            QasmInstruction::MeasureStabilizer { stabilizer_idx, creg } => QasmOp::MeasureStabilizer {
                stabilizer_idx: *stabilizer_idx,
                creg: *creg,
            },
            QasmInstruction::LogicalGate { gate, target_qubit } => QasmOp::LogicalGate {
                gate: *gate,
                target_qubit: *target_qubit,
            },
            QasmInstruction::LogicalCNOT { control_qubit, target_qubit } => QasmOp::LogicalCNOT {
                control_qubit: *control_qubit,
                target_qubit: *target_qubit,
            },
            QasmInstruction::RzPhase { angle_multiplier, target_qubit } => QasmOp::RzPhase {
                angle: angle_multiplier@,
                target_qubit: *target_qubit,
            },
            QasmInstruction::RxPhase { angle_multiplier, target_qubit } => QasmOp::RxPhase {
                angle: angle_multiplier@,
                target_qubit: *target_qubit,
            },
            QasmInstruction::ArbitraryUnitary4 { matrix_data } => QasmOp::ArbitraryUnitary4 {
                entries: matrix_data@.map_values(|s: String| s@),
            },
        }
    }
}

/// A compiled OpenQASM program: at most `MAX_INSTRUCTIONS` operations.
pub struct CompiledProgram {
    instructions: Vec<QasmInstruction>,
}

impl View for CompiledProgram {
    type V = Seq<QasmOp>;

    closed spec fn view(&self) -> Seq<QasmOp> {
        self.instructions@.map_values(|i: QasmInstruction| i@)
    }
}

impl CompiledProgram {
    #[verifier::type_invariant]
    spec fn bounded(self) -> bool {
        self.instructions.len() <= MAX_INSTRUCTIONS
    }

    /// The empty program.
    pub fn new() -> (p: Self)
        ensures
            p@ == Seq::<QasmOp>::empty(),
    {
        let p = CompiledProgram { instructions: Vec::new() };
        assert(p@ =~= Seq::<QasmOp>::empty());
        p
    }

    /// Number of operations.
    pub fn get_len(&self) -> (n: usize)
        ensures
            n == self@.len(),
            n <= MAX_INSTRUCTIONS,
    {
        proof { use_type_invariant(self); }
        self.instructions.len()
    }

    /// The operation at `idx`, which must exist.
    pub fn instruction(&self, idx: usize) -> (i: &QasmInstruction)
        requires
            idx < self@.len(),
        ensures
            i@ == self@[idx as int],
    {
        &self.instructions[idx]
    }
}

// ---------------------------------------------------------------------------
// The grammar, one statement per line.
// ---------------------------------------------------------------------------

/// A token read as `usize`.
pub open spec fn uparse(t: Seq<char>) -> Option<nat> {
    parse_unsigned(t, usize::MAX as nat)
}

/// A statement line: trimmed, with trailing `;` removed.
pub open spec fn clean_line(line: Seq<char>) -> Seq<char> {
    trim_end_char(trim(line), ';')
}

/// Lines that declare rather than act: empty, `OPENQASM`, `include`, `qubit`, `bit`.
pub open spec fn is_ignored_line(c: Seq<char>) -> bool {
    ||| c.len() == 0
    ||| starts_with(c, "OPENQASM"@)
    ||| starts_with(c, "include"@)
    ||| starts_with(c, "qubit"@)
    ||| starts_with(c, "bit"@)
}

/// `measure_stabilizer S -> C`.
pub open spec fn parse_measure_stabilizer(c: Seq<char>) -> Result<Option<QasmOp>, SimError> {
    let p = split_ws(c);
    if p.len() >= 4 {
        match uparse(p[1]) {
            None => Err(SimError::InvalidStabilizerIndex),
            Some(s) => match uparse(p[3]) {
                None => Err(SimError::InvalidStabilizerCreg),
                Some(r) => Ok(
                    Some(QasmOp::MeasureStabilizer { stabilizer_idx: s as usize, creg: r as usize }),
                ),
            },
        }
    } else {
        Ok(None)
    }
}

/// `braid A B` with the errors of its two operands.
pub open spec fn parse_braid_words(p: Seq<Seq<char>>, err_a: SimError, err_b: SimError) -> Result<
    Option<(usize, usize)>,
    SimError,
> {
    if p.len() >= 3 {
        match uparse(p[1]) {
            None => Err(err_a),
            Some(a) => match uparse(p[2]) {
                None => Err(err_b),
                Some(b) => Ok(Some((a as usize, b as usize))),
            },
        }
    } else {
        Ok(None)
    }
}

/// `braid A B`.
pub open spec fn parse_braid(c: Seq<char>) -> Result<Option<QasmOp>, SimError> {
    match parse_braid_words(split_ws(c), SimError::InvalidBraidIndexA, SimError::InvalidBraidIndexB) {
        Err(e) => Err(e),
        Ok(None) => Ok(None),
        Ok(Some(ab)) => Ok(Some(QasmOp::Braid { id_a: ab.0, id_b: ab.1 })),
    }
}

/// `measure Q -> C`.
pub open spec fn parse_measure(c: Seq<char>) -> Result<Option<QasmOp>, SimError> {
    let p = split_ws(c);
    if p.len() >= 4 {
        match uparse(p[1]) {
            None => Err(SimError::InvalidMeasureTarget),
            Some(t) => match uparse(p[3]) {
                None => Err(SimError::InvalidMeasureCreg),
                Some(r) => Ok(Some(QasmOp::Measure { target: t as usize, creg: r as usize })),
            },
        }
    } else {
        Ok(None)
    }
}

/// `if (C == V) { braid A B }`: the condition before the first `{`, split at the first
/// `==`; `if`, `(` and `)` are dropped from the register, `)` from the value.
pub open spec fn parse_conditional(c: Seq<char>) -> Result<Option<QasmOp>, SimError> {
    let k = first_of(c, '{');
    if k >= c.len() {
        Ok(None)
    } else {
        let cond = trim(c.take(k as int));
        let body = trim(trim_end_char(c.skip(k as int + 1), '}'));
        let e = first_double_eq(cond);
        if e >= cond.len() {
            Ok(None)
        } else {
            let creg_text = trim(
                remove_char(remove_char(remove_if_word(cond.take(e as int)), '('), ')'),
            );
            let val_text = trim(remove_char(cond.skip(e as int + 2), ')'));
            match uparse(creg_text) {
                None => Err(SimError::InvalidConditionRegister),
                Some(creg) => match parse_unsigned(val_text, u32::MAX as nat) {
                    None => Err(SimError::InvalidConditionValue),
                    Some(val) => if starts_with(body, "braid"@) {
                        match parse_braid_words(
                            split_ws(body),
                            SimError::InvalidConditionalBraidA,
                            SimError::InvalidConditionalBraidB,
                        ) {
                            Err(e) => Err(e),
                            Ok(None) => Ok(None),
                            Ok(Some(ab)) => Ok(
                                Some(
                                    QasmOp::ConditionalBraid {
                                        creg: creg as usize,
                                        val: val as u32,
                                        id_a: ab.0,
                                        id_b: ab.1,
                                    },
                                ),
                            ),
                        }
                    } else {
                        Ok(None)
                    },
                },
            }
        }
    }
}

/// A token that is a non-empty run of digits naming a `usize`.
pub open spec fn number_token(t: Seq<char>) -> bool {
    t.len() > 0 && all_digits(t) && uparse(t) is Some
}

/// The values of the tokens that, without trailing commas, are numbers.
pub open spec fn comma_number_tokens(ts: Seq<Seq<char>>) -> Seq<nat>
    decreases ts.len(),
{
    if ts.len() == 0 {
        Seq::empty()
    } else {
        let t = trim_end_char(ts[0], ',');
        if number_token(t) {
            seq![uparse(t)->Some_0] + comma_number_tokens(ts.drop_first())
        } else {
            comma_number_tokens(ts.drop_first())
        }
    }
}

/// The value of the first token that is a number.
pub open spec fn first_number_token(ts: Seq<Seq<char>>) -> Option<nat>
    decreases ts.len(),
{
    if ts.len() == 0 {
        None
    } else if number_token(ts[0]) {
        uparse(ts[0])
    } else {
        first_number_token(ts.drop_first())
    }
}

/// `cx q[C], q[T]`.
pub open spec fn parse_cx(c: Seq<char>) -> Option<QasmOp> {
    let nums = comma_number_tokens(split_ws(brackets_to_spaces(c.skip(2))));
    if nums.len() >= 2 {
        Some(QasmOp::LogicalCNOT { control_qubit: nums[0] as usize, target_qubit: nums[1] as usize })
    } else {
        None
    }
}

/// Logical gate kind for a statement's first character.
pub open spec fn gate_of(c: char) -> LogicalGateKind {
    if c == 'h' {
        LogicalGateKind::H
    } else if c == 't' {
        LogicalGateKind::T
    } else {
        LogicalGateKind::X
    }
}

/// `h q[N]`, `t q[N]`, `x q[N]`.
pub open spec fn parse_gate(c: Seq<char>) -> Option<QasmOp> {
    match first_number_token(split_ws(brackets_to_spaces(c.skip(1)))) {
        Some(q) => Some(QasmOp::LogicalGate { gate: gate_of(c[0]), target_qubit: q as usize }),
        None => None,
    }
}

/// The comma-separated fields, trimmed, that are floating-point literals.
pub open spec fn float_fields(inner: Seq<char>) -> Seq<Seq<char>> {
    split_char(inner, ',').map_values(|f: Seq<char>| trim(f)).filter(
        |f: Seq<char>| is_float_literal(f),
    )
}

/// `unitary4(re00, im00, ..., re33, im33)`: between the first `(` and the last `)`,
/// exactly 32 fields must be literals.
pub open spec fn parse_unitary(c: Seq<char>) -> Option<QasmOp> {
    let open = first_of(c, '(') as int;
    let close = last_of(c, ')');
    if open < c.len() && close > open {
        let fields = float_fields(c.subrange(open + 1, close));
        if fields.len() == 32 {
            Some(QasmOp::ArbitraryUnitary4 { entries: fields })
        } else {
            None
        }
    } else {
        None
    }
}

/// `rz(A) q[N]` or `rx(A) q[N]`: the angle between the first `(` and the first `)`.
pub open spec fn parse_rotation(c: Seq<char>, is_rx: bool) -> Option<QasmOp> {
    let open = first_of(c, '(') as int;
    let close = first_of(c, ')') as int;
    if open < c.len() && close < c.len() && close > open {
        let angle = trim(c.subrange(open + 1, close));
        if is_float_literal(angle) {
            match first_number_token(split_ws(brackets_to_spaces(c.skip(close + 1)))) {
                Some(q) => if is_rx {
                    Some(QasmOp::RxPhase { angle, target_qubit: q as usize })
                } else {
                    Some(QasmOp::RzPhase { angle, target_qubit: q as usize })
                },
                None => None,
            }
        } else {
            None
        }
    } else {
        None
    }
}

/// Whether the line starts a single-qubit gate statement.
pub open spec fn is_gate_line(c: Seq<char>) -> bool {
    ||| starts_with(c, "h "@)
    ||| starts_with(c, "h\t"@)
    ||| starts_with(c, "t "@)
    ||| starts_with(c, "t\t"@)
    ||| starts_with(c, "x "@)
    ||| starts_with(c, "x\t"@)
}

/// What one cleaned, non-ignored line contributes: an error, nothing, or one operation.
pub open spec fn parse_line(c: Seq<char>) -> Result<Option<QasmOp>, SimError> {
    if starts_with(c, "measure_stabilizer"@) {
        parse_measure_stabilizer(c)
    } else if starts_with(c, "braid"@) {
        parse_braid(c)
    } else if starts_with(c, "measure"@) {
        parse_measure(c)
    } else if starts_with(c, "if"@) {
        parse_conditional(c)
    } else if c == "decode_and_correct"@ {
        Ok(Some(QasmOp::DecodeAndCorrect))
    } else if starts_with(c, "cx "@) || starts_with(c, "cx\t"@) {
        Ok(parse_cx(c))
    } else if is_gate_line(c) {
        Ok(parse_gate(c))
    } else if starts_with(c, "unitary4("@) {
        Ok(parse_unitary(c))
    } else if starts_with(c, "rz("@) || starts_with(c, "rx("@) {
        Ok(parse_rotation(c, starts_with(c, "rx("@)))
    } else {
        Ok(None)
    }
}

/// The program after the lines `lines`, given the operations `acc` compiled so far: a
/// line that is not ignored is refused once `MAX_INSTRUCTIONS` operations are compiled.
pub open spec fn parse_lines(lines: Seq<Seq<char>>, acc: Seq<QasmOp>) -> Result<
    Seq<QasmOp>,
    SimError,
>
    decreases lines.len(),
{
    if lines.len() == 0 {
        Ok(acc)
    } else {
        let c = clean_line(lines[0]);
        if is_ignored_line(c) {
            parse_lines(lines.drop_first(), acc)
        } else if acc.len() >= MAX_INSTRUCTIONS {
            Err(SimError::ProgramTooLong)
        } else {
            match parse_line(c) {
                Err(e) => Err(e),
                Ok(None) => parse_lines(lines.drop_first(), acc),
                Ok(Some(op)) => parse_lines(lines.drop_first(), acc.push(op)),
            }
        }
    }
}

/// The compiled program of an OpenQASM text, line by line.
pub open spec fn parse_program(text: Seq<char>) -> Result<Seq<QasmOp>, SimError> {
    parse_lines(split_char(text, '\n'), Seq::empty())
}

// ---------------------------------------------------------------------------
// The parser.
// ---------------------------------------------------------------------------

/// The mathematical content of a line's outcome.
pub open spec fn outcome_view(r: Result<Option<QasmInstruction>, SimError>) -> Result<
    Option<QasmOp>,
    SimError,
> {
    match r {
        Err(e) => Err(e),
        Ok(None) => Ok(None),
        Ok(Some(i)) => Ok(Some(i@)),
    }
}

/// `split_ws` with the views of the tokens.
fn tokens(c: &Vec<char>) -> (ts: Vec<Vec<char>>)
    ensures
        views(ts@) == split_ws(c@),
{
    let ts = split_ws_exec(c);
    assert(views(ts@) =~= split_ws(c@));
    ts
}

fn uparse_exec(t: &Vec<char>) -> (r: Option<usize>)
    ensures
        match r {
            Some(v) => uparse(t@) == Some(v as nat),
            None => uparse(t@) is None,
        },
{
    parse_usize_exec(t)
}

fn parse_measure_stabilizer_exec(c: &Vec<char>) -> (r: Result<Option<QasmInstruction>, SimError>)
    ensures
        outcome_view(r) == parse_measure_stabilizer(c@),
{
    let p = tokens(c);
    if p.len() >= 4 {
        assert(p@[1]@ == split_ws(c@)[1] && p@[3]@ == split_ws(c@)[3]);
        let stabilizer_idx = match uparse_exec(&p[1]) {
            Some(v) => v,
            None => { return Err(SimError::InvalidStabilizerIndex); },
        };
        let creg = match uparse_exec(&p[3]) {
            Some(v) => v,
            None => { return Err(SimError::InvalidStabilizerCreg); },
        };
        Ok(Some(QasmInstruction::MeasureStabilizer { stabilizer_idx, creg }))
    } else {
        Ok(None)
    }
}

fn parse_braid_words_exec(p: &Vec<Vec<char>>, err_a: SimError, err_b: SimError) -> (r: Result<
    Option<(usize, usize)>,
    SimError,
>)
    ensures
        r == parse_braid_words(views(p@), err_a, err_b),
{
    if p.len() >= 3 {
        assert(p@[1]@ == views(p@)[1] && p@[2]@ == views(p@)[2]);
        let a = match uparse_exec(&p[1]) {
            Some(v) => v,
            None => { return Err(err_a); },
        };
        let b = match uparse_exec(&p[2]) {
            Some(v) => v,
            None => { return Err(err_b); },
        };
        Ok(Some((a, b)))
    } else {
        Ok(None)
    }
}

fn parse_braid_exec(c: &Vec<char>) -> (r: Result<Option<QasmInstruction>, SimError>)
    ensures
        outcome_view(r) == parse_braid(c@),
{
    let p = tokens(c);
    match parse_braid_words_exec(&p, SimError::InvalidBraidIndexA, SimError::InvalidBraidIndexB) {
        Err(e) => Err(e),
        Ok(None) => Ok(None),
        Ok(Some((id_a, id_b))) => Ok(Some(QasmInstruction::Braid { id_a, id_b })),
    }
}

fn parse_measure_exec(c: &Vec<char>) -> (r: Result<Option<QasmInstruction>, SimError>)
    ensures
        outcome_view(r) == parse_measure(c@),
{
    let p = tokens(c);
    if p.len() >= 4 {
        assert(p@[1]@ == split_ws(c@)[1] && p@[3]@ == split_ws(c@)[3]);
        let target = match uparse_exec(&p[1]) {
            Some(v) => v,
            None => { return Err(SimError::InvalidMeasureTarget); },
        };
        let creg = match uparse_exec(&p[3]) {
            Some(v) => v,
            None => { return Err(SimError::InvalidMeasureCreg); },
        };
        Ok(Some(QasmInstruction::Measure { target, creg }))
    } else {
        Ok(None)
    }
}

fn parse_conditional_exec(c: &Vec<char>) -> (r: Result<Option<QasmInstruction>, SimError>)
    ensures
        outcome_view(r) == parse_conditional(c@),
{
    let n = c.len();
    let k = match find_char_exec(c, '{') {
        Some(k) => k,
        None => { return Ok(None); },
    };
    let cond = trim_exec(&slice_chars(c, 0, k));
    let body = trim_exec(&trim_end_char_exec(&slice_chars(c, k + 1, n), '}'));
    assert(c@.subrange(0, k as int) == c@.take(k as int));
    assert(c@.subrange(k + 1, n as int) == c@.skip(k as int + 1));
    let e = find_double_eq_exec(&cond);
    if e >= cond.len() {
        return Ok(None);
    }
    proof {
        lemma_first_double_eq(cond@);
    }
    let head = slice_chars(&cond, 0, e);
    let tail = slice_chars(&cond, e + 2, cond.len());
    assert(head@ == cond@.take(e as int));
    assert(tail@ == cond@.skip(e as int + 2));
    let creg_text = trim_exec(&remove_char_exec(&remove_char_exec(&remove_if_word_exec(&head), '('), ')'));
    let val_text = trim_exec(&remove_char_exec(&tail, ')'));
    let creg = match uparse_exec(&creg_text) {
        Some(v) => v,
        None => { return Err(SimError::InvalidConditionRegister); },
    };
    let val = match parse_u32_exec(&val_text) {
        Some(v) => v,
        None => { return Err(SimError::InvalidConditionValue); },
    };
    if starts_with_exec(&body, "braid") {
        let bp = tokens(&body);
        match parse_braid_words_exec(
            &bp,
            SimError::InvalidConditionalBraidA,
            SimError::InvalidConditionalBraidB,
        ) {
            Err(e) => Err(e),
            Ok(None) => Ok(None),
            Ok(Some((id_a, id_b))) => Ok(
                Some(QasmInstruction::ConditionalBraid { creg, val, id_a, id_b }),
            ),
        }
    } else {
        Ok(None)
    }
}

fn number_token_exec(t: &Vec<char>) -> (r: Option<usize>)
    ensures
        match r {
            Some(v) => number_token(t@) && uparse(t@) == Some(v as nat),
            None => !number_token(t@),
        },
{
    if t.len() == 0 {
        return None;
    }
    let mut i: usize = 0;
    while i < t.len()
        invariant
            i <= t@.len(),
            forall|k: int| 0 <= k < i ==> crate::text::is_digit(#[trigger] t@[k]),
        decreases t.len() - i,
    {
        if !('0' <= t[i] && t[i] <= '9') {
            assert(!crate::text::is_digit(t@[i as int]));
            return None;
        }
        i = i + 1;
    }
    assert(all_digits(t@));
    uparse_exec(t)
}

fn comma_number_tokens_exec(ts: &Vec<Vec<char>>) -> (r: Vec<usize>)
    ensures
        r@.len() == comma_number_tokens(views(ts@)).len(),
        forall|k: int| 0 <= k < r@.len() ==> r@[k] as nat == #[trigger] comma_number_tokens(
            views(ts@),
        )[k],
{
    let n = ts.len();
    let mut r: Vec<usize> = Vec::new();
    let ghost acc: Seq<nat> = Seq::empty();
    let mut i: usize = 0;
    assert(views(ts@).subrange(0, n as int) == views(ts@));
    while i < n
        invariant
            i <= n == ts@.len(),
            r@.len() == acc.len(),
            forall|k: int| 0 <= k < r@.len() ==> r@[k] as nat == #[trigger] acc[k],
            acc + comma_number_tokens(views(ts@).subrange(i as int, n as int))
                == comma_number_tokens(views(ts@)),
        decreases n - i,
    {
        let ghost rest = views(ts@).subrange(i as int, n as int);
        assert(rest[0] == ts@[i as int]@);
        assert(rest.drop_first() == views(ts@).subrange(i + 1, n as int));
        let t = trim_end_char_exec(&ts[i], ',');
        match number_token_exec(&t) {
            Some(v) => {
                r.push(v);
                proof {
                    let old_acc = acc;
                    acc = acc.push(v as nat);
                    assert(acc + comma_number_tokens(rest.drop_first()) == old_acc + (seq![
                        v as nat,
                    ] + comma_number_tokens(rest.drop_first())));
                }
            },
            None => {},
        }
        i = i + 1;
    }
    assert(views(ts@).subrange(n as int, n as int).len() == 0);
    assert(acc + comma_number_tokens(Seq::<Seq<char>>::empty()) == acc);
    r
}

fn first_number_token_exec(ts: &Vec<Vec<char>>) -> (r: Option<usize>)
    ensures
        match r {
            Some(v) => first_number_token(views(ts@)) == Some(v as nat),
            None => first_number_token(views(ts@)) is None,
        },
{
    let n = ts.len();
    let mut i: usize = 0;
    assert(views(ts@).subrange(0, n as int) == views(ts@));
    while i < n
        invariant
            i <= n == ts@.len(),
            first_number_token(views(ts@).subrange(i as int, n as int)) == first_number_token(
                views(ts@),
            ),
        decreases n - i,
    {
        let ghost rest = views(ts@).subrange(i as int, n as int);
        assert(rest[0] == ts@[i as int]@);
        assert(rest.drop_first() == views(ts@).subrange(i + 1, n as int));
        match number_token_exec(&ts[i]) {
            Some(v) => { return Some(v); },
            None => {},
        }
        i = i + 1;
    }
    None
}

fn parse_cx_exec(c: &Vec<char>) -> (r: Option<QasmInstruction>)
    requires
        c@.len() >= 2,
    ensures
        match r {
            Some(i) => parse_cx(c@) == Some(i@),
            None => parse_cx(c@) is None,
        },
{
    let body = slice_chars(c, 2, c.len());
    assert(body@ == c@.skip(2));
    let ts = tokens(&brackets_to_spaces_exec(&body));
    let nums = comma_number_tokens_exec(&ts);
    if nums.len() >= 2 {
        Some(QasmInstruction::LogicalCNOT { control_qubit: nums[0], target_qubit: nums[1] })
    } else {
        None
    }
}

fn parse_gate_exec(c: &Vec<char>) -> (r: Option<QasmInstruction>)
    requires
        c@.len() >= 1,
    ensures
        match r {
            Some(i) => parse_gate(c@) == Some(i@),
            None => parse_gate(c@) is None,
        },
{
    let body = slice_chars(c, 1, c.len());
    assert(body@ == c@.skip(1));
    let ts = tokens(&brackets_to_spaces_exec(&body));
    match first_number_token_exec(&ts) {
        Some(q) => {
            let gate = if c[0] == 'h' {
                LogicalGateKind::H
            } else if c[0] == 't' {
                LogicalGateKind::T
            } else {
                LogicalGateKind::X
            };
            Some(QasmInstruction::LogicalGate { gate, target_qubit: q })
        },
        None => None,
    }
}

fn float_fields_exec(inner: &Vec<char>) -> (r: Vec<Vec<char>>)
    ensures
        views(r@) == float_fields(inner@),
{
    let pieces = split_char_exec(inner, ',');
    let ghost trimmed = split_char(inner@, ',').map_values(|f: Seq<char>| trim(f));
    let ghost pred = |f: Seq<char>| is_float_literal(f);
    let n = pieces.len();
    let mut r: Vec<Vec<char>> = Vec::new();
    let mut i: usize = 0;
    assert(views(pieces@).len() == n);
    while i < n
        invariant
            i <= n == pieces@.len(),
            views(pieces@) == split_char(inner@, ','),
            trimmed == split_char(inner@, ',').map_values(|f: Seq<char>| trim(f)),
            pred == (|f: Seq<char>| is_float_literal(f)),
            views(r@) == trimmed.take(i as int).filter(pred),
        decreases n - i,
    {
        let t = trim_exec(&pieces[i]);
        proof {
            assert(pieces@[i as int]@ == views(pieces@)[i as int]);
            assert(t@ == trimmed[i as int]);
            assert(trimmed.take(i + 1) == trimmed.take(i as int).push(t@));
            reveal_with_fuel(Seq::filter, 1);
            assert(trimmed.take(i + 1).drop_last() == trimmed.take(i as int));
        }
        if is_float_literal_exec(&t) {
            let ghost before = r@;
            r.push(t);
            assert(views(r@) == views(before).push(t@));
        }
        i = i + 1;
    }
    assert(trimmed.take(n as int) == trimmed);
    r
}

fn strings_of(fields: &Vec<Vec<char>>) -> (r: Vec<String>)
    ensures
        r@.map_values(|s: String| s@) == views(fields@),
{
    let mut r: Vec<String> = Vec::new();
    let mut i: usize = 0;
    while i < fields.len()
        invariant
            i <= fields@.len(),
            r@.map_values(|s: String| s@) == views(fields@).take(i as int),
        decreases fields.len() - i,
    {
        let s = string_from_chars(&fields[i]);
        let ghost before = r@;
        r.push(s);
        assert(r@.map_values(|s: String| s@) == before.map_values(|s: String| s@).push(s@));
        assert(views(fields@).take(i + 1) == views(fields@).take(i as int).push(fields@[i as int]@));
        i = i + 1;
    }
    assert(views(fields@).take(fields@.len() as int) == views(fields@));
    r
}

fn parse_unitary_exec(c: &Vec<char>) -> (r: Option<QasmInstruction>)
    ensures
        match r {
            Some(i) => parse_unitary(c@) == Some(i@),
            None => parse_unitary(c@) is None,
        },
{
    let open = match find_char_exec(c, '(') {
        Some(k) => k,
        None => { return None; },
    };
    let close = match last_of_exec(c, ')') {
        Some(k) => k,
        None => { return None; },
    };
    if close > open {
        let inner = slice_chars(c, open + 1, close);
        let fields = float_fields_exec(&inner);
        if fields.len() == 32 {
            let matrix_data = strings_of(&fields);
            Some(QasmInstruction::ArbitraryUnitary4 { matrix_data })
        } else {
            None
        }
    } else {
        None
    }
}

fn parse_rotation_exec(c: &Vec<char>, is_rx: bool) -> (r: Option<QasmInstruction>)
    ensures
        match r {
            Some(i) => parse_rotation(c@, is_rx) == Some(i@),
            None => parse_rotation(c@, is_rx) is None,
        },
{
    let n = c.len();
    let open = match find_char_exec(c, '(') {
        Some(k) => k,
        None => { return None; },
    };
    let close = match find_char_exec(c, ')') {
        Some(k) => k,
        None => { return None; },
    };
    if close > open {
        let angle = trim_exec(&slice_chars(c, open + 1, close));
        if is_float_literal_exec(&angle) {
            let rest = slice_chars(c, close + 1, n);
            assert(rest@ == c@.skip(close + 1));
            let ts = tokens(&brackets_to_spaces_exec(&rest));
            match first_number_token_exec(&ts) {
                Some(q) => {
                    let angle_multiplier = string_from_chars(&angle);
                    if is_rx {
                        Some(QasmInstruction::RxPhase { angle_multiplier, target_qubit: q })
                    } else {
                        Some(QasmInstruction::RzPhase { angle_multiplier, target_qubit: q })
                    }
                },
                None => None,
            }
        } else {
            None
        }
    } else {
        None
    }
}

fn is_ignored_line_exec(c: &Vec<char>) -> (r: bool)
    ensures
        r == is_ignored_line(c@),
{
    c.len() == 0 || starts_with_exec(c, "OPENQASM") || starts_with_exec(c, "include")
        || starts_with_exec(c, "qubit") || starts_with_exec(c, "bit")
}

fn parse_line_exec(c: &Vec<char>) -> (r: Result<Option<QasmInstruction>, SimError>)
    ensures
        outcome_view(r) == parse_line(c@),
{
    if starts_with_exec(c, "measure_stabilizer") {
        parse_measure_stabilizer_exec(c)
    } else if starts_with_exec(c, "braid") {
        parse_braid_exec(c)
    } else if starts_with_exec(c, "measure") {
        parse_measure_exec(c)
    } else if starts_with_exec(c, "if") {
        parse_conditional_exec(c)
    } else if equals_exec(c, "decode_and_correct") {
        Ok(Some(QasmInstruction::DecodeAndCorrect))
    } else if starts_with_exec(c, "cx ") || starts_with_exec(c, "cx\t") {
        proof {
            reveal_strlit("cx ");
            reveal_strlit("cx\t");
        }
        Ok(parse_cx_exec(c))
    } else if starts_with_exec(c, "h ") || starts_with_exec(c, "h\t") || starts_with_exec(c, "t ")
        || starts_with_exec(c, "t\t") || starts_with_exec(c, "x ") || starts_with_exec(c, "x\t") {
        proof {
            reveal_strlit("h ");
            reveal_strlit("h\t");
            reveal_strlit("t ");
            reveal_strlit("t\t");
            reveal_strlit("x ");
            reveal_strlit("x\t");
        }
        Ok(parse_gate_exec(c))
    } else if starts_with_exec(c, "unitary4(") {
        Ok(parse_unitary_exec(c))
    } else if starts_with_exec(c, "rz(") || starts_with_exec(c, "rx(") {
        let is_rx = starts_with_exec(c, "rx(");
        Ok(parse_rotation_exec(c, is_rx))
    } else {
        Ok(None)
    }
}

/// The operations of a vector of instructions.
pub open spec fn ops(v: Seq<QasmInstruction>) -> Seq<QasmOp> {
    v.map_values(|i: QasmInstruction| i@)
}

/// Compiles an OpenQASM text line by line, as `parse_program` states: errors name the
/// malformed operand or the overflow of `MAX_INSTRUCTIONS`.
pub fn parse_program_exec(program_str: &str) -> (r: Result<CompiledProgram, SimError>)
    ensures
        match r {
            Ok(p) => parse_program(program_str@) == Ok::<Seq<QasmOp>, SimError>(p@),
            Err(e) => parse_program(program_str@) == Err::<Seq<QasmOp>, SimError>(e),
        },
{
    let text = chars_of(program_str);
    let lines = split_char_exec(&text, '\n');
    let n = lines.len();
    let mut acc: Vec<QasmInstruction> = Vec::new();
    let mut i: usize = 0;
    assert(views(lines@).subrange(0, n as int) == views(lines@));
    assert(ops(acc@) == Seq::<QasmOp>::empty());
    while i < n
        invariant
            i <= n == lines@.len(),
            views(lines@) == split_char(program_str@, '\n'),
            acc@.len() <= MAX_INSTRUCTIONS,
            parse_lines(views(lines@).subrange(i as int, n as int), ops(acc@)) == parse_program(
                program_str@,
            ),
        decreases n - i,
    {
        let ghost rest = views(lines@).subrange(i as int, n as int);
        assert(rest[0] == lines@[i as int]@);
        assert(rest.drop_first() == views(lines@).subrange(i + 1, n as int));
        let c = trim_end_char_exec(&trim_exec(&lines[i]), ';');
        if is_ignored_line_exec(&c) {
            i = i + 1;
            continue;
        }
        if acc.len() >= MAX_INSTRUCTIONS {
            return Err(SimError::ProgramTooLong);
        }
        match parse_line_exec(&c) {
            Err(e) => { return Err(e); },
            Ok(None) => {},
            Ok(Some(ins)) => {
                let ghost before = acc@;
                acc.push(ins);
                assert(ops(acc@) == ops(before).push(ins@));
            },
        }
        i = i + 1;
    }
    assert(views(lines@).subrange(n as int, n as int).len() == 0);
    let p = CompiledProgram { instructions: acc };
    Ok(p)
}

// ---------------------------------------------------------------------------
// Laws of the line-by-line compilation.
// ---------------------------------------------------------------------------

/// Compiling a program in two parts is compiling the first part and then the second
/// from where the first left off; a refusal in the first part is the program's refusal.
pub proof fn law_compile_lines_in_parts(first: Seq<Seq<char>>, second: Seq<Seq<char>>, acc: Seq<QasmOp>)
    ensures
        parse_lines(first + second, acc) == match parse_lines(first, acc) {
            Ok(mid) => parse_lines(second, mid),
            Err(e) => Err(e),
        },
    decreases first.len(),
{
    if first.len() > 0 {
        assert((first + second).drop_first() =~= first.drop_first() + second);
        assert((first + second)[0] == first[0]);
        let c = clean_line(first[0]);
        if is_ignored_line(c) {
            law_compile_lines_in_parts(first.drop_first(), second, acc);
        } else if acc.len() >= MAX_INSTRUCTIONS {
        } else {
            match parse_line(c) {
                Err(e) => {},
                Ok(None) => {
                    law_compile_lines_in_parts(first.drop_first(), second, acc);
                },
                Ok(Some(op)) => {
                    law_compile_lines_in_parts(first.drop_first(), second, acc.push(op));
                },
            }
        }
    } else {
        assert(first + second =~= second);
    }
}

/// A declaration line (empty, `OPENQASM`, `include`, `qubit`, `bit`) inserted anywhere in
/// a program leaves what the program compiles to unchanged.
pub proof fn law_declarations_compile_to_nothing(
    before: Seq<Seq<char>>,
    line: Seq<char>,
    after: Seq<Seq<char>>,
    acc: Seq<QasmOp>,
)
    requires
        is_ignored_line(clean_line(line)),
    ensures
        parse_lines(before + seq![line] + after, acc) == parse_lines(before + after, acc),
{
    law_compile_lines_in_parts(before, seq![line] + after, acc);
    law_compile_lines_in_parts(before, after, acc);
    assert(before + seq![line] + after =~= before + (seq![line] + after));
    match parse_lines(before, acc) {
        Ok(mid) => {
            assert((seq![line] + after).drop_first() =~= after);
            assert((seq![line] + after)[0] == line);
        },
        Err(e) => {},
    }
}

/// The upper-case form of a lower-case ASCII letter.
pub open spec fn ascii_upper(c: char) -> char {
    ((c as u32) - 32) as char
}

proof fn lemma_first_char_rules_out(c: Seq<char>, p: Seq<char>)
    requires
        c.len() >= 1,
        p.len() >= 1,
        c[0] != p[0],
    ensures
        !starts_with(c, p),
        c != p,
{
    if p.len() <= c.len() {
        assert(c.subrange(0, p.len() as int)[0] == c[0]);
    }
}

/// A gate statement compiles to the logical gate its first letter names: a line that starts with
/// one of the letters h, t, x and then a space or tab gives the logical gate named by that
/// letter in upper case, or nothing when it holds no qubit number; never an error.
pub proof fn law_gate_line_names_its_gate(c: Seq<char>)
    requires
        c.len() >= 2,
        c[0] == 'h' || c[0] == 't' || c[0] == 'x',
        c[1] == ' ' || c[1] == '\t',
    ensures
        match parse_line(c) {
            Ok(Some(QasmOp::LogicalGate { gate, target_qubit })) => gate_named(
                seq![ascii_upper(c[0])],
            ) == Some(gate),
            Ok(None) => true,
            _ => false,
        },
{
    reveal_strlit("measure_stabilizer");
    reveal_strlit("braid");
    reveal_strlit("measure");
    reveal_strlit("if");
    reveal_strlit("decode_and_correct");
    reveal_strlit("cx ");
    reveal_strlit("cx\t");
    reveal_strlit("h ");
    reveal_strlit("h\t");
    reveal_strlit("t ");
    reveal_strlit("t\t");
    reveal_strlit("x ");
    reveal_strlit("x\t");
    lemma_first_char_rules_out(c, "measure_stabilizer"@);
    lemma_first_char_rules_out(c, "braid"@);
    lemma_first_char_rules_out(c, "measure"@);
    lemma_first_char_rules_out(c, "if"@);
    lemma_first_char_rules_out(c, "decode_and_correct"@);
    lemma_first_char_rules_out(c, "cx "@);
    lemma_first_char_rules_out(c, "cx\t"@);
    let two = c.subrange(0, 2);
    assert(two =~= seq![c[0], c[1]]);
    if c[0] == 'h' && c[1] == ' ' {
        assert(two =~= "h "@);
    } else if c[0] == 'h' {
        assert(two =~= "h\t"@);
    } else if c[0] == 't' && c[1] == ' ' {
        assert(two =~= "t "@);
    } else if c[0] == 't' {
        assert(two =~= "t\t"@);
    } else if c[1] == ' ' {
        assert(two =~= "x "@);
    } else {
        assert(two =~= "x\t"@);
    }
    assert(is_gate_line(c));
    assert(parse_line(c) == Ok::<Option<QasmOp>, SimError>(parse_gate(c)));
    let u = seq![ascii_upper(c[0])];
    if c[0] == 'h' {
        assert(u =~= seq!['H']);
        assert(gate_named(u) == Some(LogicalGateKind::H));
    } else if c[0] == 't' {
        assert(u =~= seq!['T']);
        assert(u[0] != seq!['H'][0]);
        assert(gate_named(u) == Some(LogicalGateKind::T));
    } else {
        assert(u =~= seq!['X']);
        assert(u[0] != seq!['H'][0] && u[0] != seq!['T'][0]);
        assert(gate_named(u) == Some(LogicalGateKind::X));
    }
}

} // verus!
