//! The loader turns source text into instructions; the pre-scan records
//! where labels and class declarations stand.
use vstd::prelude::*;
use vstd::utf8::encode_utf8;
use crate::hash::{fnv1a_32, opcode_hash_bytes};
use crate::opcodes::{OP_CLASS, OP_LABEL, OP_STRUCT};
use crate::table::{has_key, keys_of, position_of};
use crate::text::{
    clean_line, copy_range, find_byte_in, find_double_slash_in, lines_from, lines_of,
    lower_ascii, prepend_tokens, strip_comment, to_lower_ascii, tokens_from, tokens_of, trim,
    trim_bounds, space_at, lemma_space_len_sub, strip_cr, find_byte, find_double_slash, CARRIAGE_RETURN,
    HASH, NEWLINE, QUOTE, SEMICOLON,
};

verus! {

pub const COLON: u8 = 58;

/// One loaded instruction: the opcode hash of the lowercased mnemonic, the
/// remaining tokens verbatim, the 0-based index of the source line, and that
/// line as written.
#[derive(Debug, Clone)]
pub struct Instruction {
    pub op: u32,
    pub args: Vec<Vec<u8>>,
    pub line_idx: usize,
    pub raw: Vec<u8>,
}

/// What an instruction is, as values.
pub struct InstrView {
    pub op: u32,
    pub args: Seq<Seq<u8>>,
    pub line_idx: int,
    pub raw: Seq<u8>,
}

impl View for Instruction {
    type V = InstrView;

    open spec fn view(&self) -> InstrView {
        InstrView {
            op: self.op,
            args: byte_strings(self.args@),
            line_idx: self.line_idx as int,
            raw: self.raw@,
        }
    }
}

/// The contents of a list of byte strings.
pub open spec fn byte_strings(v: Seq<Vec<u8>>) -> Seq<Seq<u8>> {
    v.map_values(|x: Vec<u8>| x@)
}

pub open spec fn instrs_view(v: Seq<Instruction>) -> Seq<InstrView> {
    v.map_values(|i: Instruction| i@)
}

#[derive(Debug, Clone, Copy, PartialEq, Eq, Structural)]
pub enum LoadErrorKind {
    /// A double quote is left open at the end of a line.
    UnterminatedQuote,
    /// A `label` line without exactly one argument.
    LabelArity,
    /// A label name declared twice.
    DuplicateLabel,
    /// A class declaration without a name.
    ClassArity,
    /// A class name declared twice.
    DuplicateClass,
}

/// A fatal loading error, with the source path, the line index and the line.
#[derive(Debug, Clone)]
pub struct LoadError {
    pub kind: LoadErrorKind,
    pub path: String,
    pub line_idx: usize,
    pub raw: Vec<u8>,
}

/// The instruction that a source line gives: `Err` for an open quote,
/// `Ok(None)` for a line with no code.
pub open spec fn line_instruction(line: Seq<u8>, idx: int) -> Result<Option<InstrView>, ()> {
    let code = clean_line(line);
    if code.len() == 0 {
        Ok(None)
    } else {
        match tokens_of(code) {
            None => Err(()),
            Some(t) => if t.len() == 0 {
                Ok(None)
            } else {
                Ok(
                    Some(
                        InstrView {
                            op: fnv1a_32(lower_ascii(t[0])),
                            args: t.drop_first(),
                            line_idx: idx,
                            raw: line,
                        },
                    ),
                )
            },
        }
    }
}

/// The instructions of the first `n` lines, or the index of the first line
/// that leaves a quote open.
pub open spec fn program_prefix(lines: Seq<Seq<u8>>, n: int) -> Result<Seq<InstrView>, int>
    decreases n,
{
    if n <= 0 {
        Ok(Seq::empty())
    } else {
        match program_prefix(lines, n - 1) {
            Err(e) => Err(e),
            Ok(p) => match line_instruction(lines[n - 1], n - 1) {
                Err(_) => Err(n - 1),
                Ok(None) => Ok(p),
                Ok(Some(ins)) => Ok(p.push(ins)),
            },
        }
    }
}

/// The program that a source text loads to.
pub open spec fn program_of(src: Seq<u8>) -> Result<Seq<InstrView>, int> {
    program_prefix(lines_of(src), lines_of(src).len() as int)
}

proof fn lemma_prepend_push(parts: Seq<Seq<u8>>, tok: Seq<u8>, rest: Option<Seq<Seq<u8>>>)
    ensures
        prepend_tokens(parts, prepend_tokens(seq![tok], rest)) == prepend_tokens(
            parts.push(tok),
            rest,
        ),
{
    match rest {
        Some(r) => {
            assert(parts + (seq![tok] + r) =~= parts.push(tok) + r);
        },
        None => {},
    }
}

proof fn lemma_program_error_persists(lines: Seq<Seq<u8>>, n: int, m: int)
    requires
        n <= m,
        program_prefix(lines, n) is Err,
    ensures
        program_prefix(lines, m) == program_prefix(lines, n),
    decreases m - n,
{
    if n < m {
        lemma_program_error_persists(lines, n, m - 1);
    }
}

/// Splits one line of code into tokens by the quoting tokenizer.
pub fn tokenize(s: &[u8]) -> (r: Option<Vec<Vec<u8>>>)
    ensures
        match r {
            Some(t) => tokens_of(s@) == Some(byte_strings(t@)),
            None => tokens_of(s@) is None,
        },
{
    let mut parts: Vec<Vec<u8>> = Vec::new();
    let mut start: usize = 0;
    let mut i: usize = 0;
    let mut quoted = false;
    proof {
        assert(byte_strings(parts@) =~= Seq::<Seq<u8>>::empty());
        assert(prepend_tokens(Seq::empty(), tokens_from(s@, 0, 0, false)) =~= tokens_from(
            s@,
            0,
            0,
            false,
        )) by {
            match tokens_from(s@, 0, 0, false) {
                Some(x) => assert(Seq::<Seq<u8>>::empty() + x =~= x),
                None => {},
            }
        }
    }
    while i < s.len()
        invariant
            start <= i <= s@.len(),
            tokens_of(s@) == prepend_tokens(byte_strings(parts@), tokens_from(s@, start as int, i as int, quoted)),
        decreases s@.len() - i,
    {
        let b = s[i];
        if quoted {
            quoted = b != QUOTE;
            i = i + 1;
        } else if b == QUOTE {
            quoted = true;
            i = i + 1;
        } else if space_at(s, i, s.len()) > 0 {
            let w = space_at(s, i, s.len());
            proof {
                lemma_space_len_sub(s@, i as int);
            }
            if start < i {
                let tok = copy_range(s, start, i);
                proof {
                    lemma_prepend_push(
                        byte_strings(parts@),
                        tok@,
                        tokens_from(s@, i + w, i + w, false),
                    );
                }
                let ghost before = byte_strings(parts@);
                parts.push(tok);
                assert(byte_strings(parts@) =~= before.push(tok@));
            }
            i = i + w;
            start = i;
        } else {
            proof {
                lemma_space_len_sub(s@, i as int);
            }
            i = i + 1;
        }
    }
    if quoted {
        None
    } else {
        if start < s.len() {
            let tok = copy_range(s, start, s.len());
            let ghost before = byte_strings(parts@);
            parts.push(tok);
            assert(byte_strings(parts@) =~= before.push(tok@));
            assert(before + seq![tok@] =~= before.push(tok@));
        } else {
            assert(byte_strings(parts@) + Seq::<Seq<u8>>::empty() =~= byte_strings(parts@));
        }
        Some(parts)
    }
}

/// Splits a text into lines at line feeds; a carriage return before a line
/// feed is dropped.
pub fn split_lines(s: &[u8]) -> (r: Vec<Vec<u8>>)
    ensures
        byte_strings(r@) == lines_of(s@),
{
    let mut out: Vec<Vec<u8>> = Vec::new();
    let mut start: usize = 0;
    let mut i: usize = 0;
    assert(byte_strings(out@) + lines_from(s@, 0, 0) =~= lines_from(s@, 0, 0));
    while i < s.len()
        invariant
            start <= i <= s@.len(),
            lines_of(s@) == byte_strings(out@) + lines_from(s@, start as int, i as int),
        decreases s@.len() - i,
    {
        if s[i] == NEWLINE {
            let mut line = copy_range(s, start, i);
            if line.len() > 0 && line[line.len() - 1] == CARRIAGE_RETURN {
                line.pop();
            }
            assert(line@ == strip_cr(s@.subrange(start as int, i as int)));
            let ghost before = byte_strings(out@);
            out.push(line);
            assert(byte_strings(out@) =~= before.push(line@));
            assert(before + (seq![line@] + lines_from(s@, i + 1, i + 1)) =~= before.push(line@)
                + lines_from(s@, i + 1, i + 1));
            i = i + 1;
            start = i;
        } else {
            i = i + 1;
        }
    }
    if start < s.len() {
        let line = copy_range(s, start, s.len());
        let ghost before = byte_strings(out@);
        out.push(line);
        assert(byte_strings(out@) =~= before.push(line@));
        assert(before + seq![line@] =~= before.push(line@));
    } else {
        assert(byte_strings(out@) + Seq::<Seq<u8>>::empty() =~= byte_strings(out@));
    }
    out
}

/// The code part of a line: trimmed, with its comment cut off.
pub fn clean(line: &[u8]) -> (r: Vec<u8>)
    ensures
        r@ == clean_line(line@),
{
    let (a, b) = trim_bounds(line, 0, line.len());
    assert(line@.subrange(0, line@.len() as int) =~= line@);
    let ghost t = line@.subrange(a as int, b as int);
    let h = find_byte_in(line, HASH, a, b);
    let d = find_double_slash_in(line, a, b);
    let c = find_byte_in(line, SEMICOLON, a, b);
    let first = if h <= d {
        h
    } else {
        d
    };
    let cut: usize = if first <= c {
        first
    } else {
        c
    };
    if cut < b {
        let (a2, b2) = trim_bounds(line, a, cut);
        assert(t.subrange(0, cut - a) =~= line@.subrange(a as int, cut as int));
        copy_range(line, a2, b2)
    } else {
        copy_range(line, a, b)
    }
}

/// Loads a source text: one instruction per line of code, in order. The
/// mnemonic is lowercased and hashed; the other tokens are kept as written.
/// A quote left open is fatal.
pub fn parse(path: &str, source: String) -> (r: Result<Vec<Instruction>, LoadError>)
    ensures
        match r {
            Ok(v) => program_of(encode_utf8(source@)) == Ok::<Seq<InstrView>, int>(instrs_view(v@)),
            Err(e) => program_of(encode_utf8(source@)) == Err::<Seq<InstrView>, int>(e.line_idx as int)
                && e.raw@ == lines_of(encode_utf8(source@))[e.line_idx as int]
                && e.kind == LoadErrorKind::UnterminatedQuote && e.path@ == path@,
        },
{
    let bytes = source.as_str().as_bytes();
    let lines = split_lines(bytes);
    let mut out: Vec<Instruction> = Vec::new();
    let mut k: usize = 0;
    assert(instrs_view(out@) =~= Seq::<InstrView>::empty());
    while k < lines.len()
        invariant
            k <= lines@.len(),
            byte_strings(lines@) == lines_of(bytes@),
            bytes@ == encode_utf8(source@),
            program_prefix(byte_strings(lines@), k as int) == Ok::<Seq<InstrView>, int>(instrs_view(out@)),
        decreases lines@.len() - k,
    {
        let line = &lines[k];
        assert(line@ == byte_strings(lines@)[k as int]);
        let code = clean(line.as_slice());
        if code.len() > 0 {
            match tokenize(code.as_slice()) {
                None => {
                    proof {
                        lemma_program_error_persists(byte_strings(lines@), k + 1, byte_strings(lines@).len() as int);
                    }
                    return Err(
                        LoadError {
                            kind: LoadErrorKind::UnterminatedQuote,
                            path: path.to_owned(),
                            line_idx: k,
                            raw: line.clone(),
                        },
                    );
                },
                Some(mut toks) => {
                    if toks.len() > 0 {
                        let lowered = to_lower_ascii(toks[0].as_slice());
                        let op = opcode_hash_bytes(lowered.as_slice());
                        let ghost tv = byte_strings(toks@);
                        let first = toks.remove(0);
                        assert(byte_strings(toks@) =~= tv.drop_first());
                        let ins = Instruction { op, args: toks, line_idx: k, raw: line.clone() };
                        assert(ins.raw@ == line@);
                        let ghost before = out@;
                        out.push(ins);
                        assert(instrs_view(out@) =~= instrs_view(before).push(ins@));
                    }
                },
            }
        }
        k = k + 1;
    }
    Ok(out)
}

/// A declared name without its trailing colon, if it has one.
pub open spec fn strip_colon(s: Seq<u8>) -> Seq<u8> {
    if s.len() > 0 && s.last() == COLON {
        s.drop_last()
    } else {
        s
    }
}

/// Whether a name is recorded in a table of names and instruction indices.
pub open spec fn table_has(t: Seq<(Seq<u8>, int)>, name: Seq<u8>) -> bool {
    exists|j: int| 0 <= j < t.len() && t[j].0 == name
}

/// A table of names and instruction indices, as values.
pub open spec fn positions_view(t: Seq<(Vec<u8>, usize)>) -> Seq<(Seq<u8>, int)> {
    t.map_values(|e: (Vec<u8>, usize)| (e.0@, e.1 as int))
}

/// Whether an opcode declares a class.
pub open spec fn is_class_decl(op: u32) -> bool {
    op == OP_STRUCT || op == OP_CLASS
}

/// The label table of the first `n` instructions: each `label` with its name
/// and index, in order; or the first error, with its kind and the index of
/// the instruction at fault.
pub open spec fn labels_prefix(ins: Seq<InstrView>, n: int) -> Result<
    Seq<(Seq<u8>, int)>,
    (LoadErrorKind, int),
>
    decreases n,
{
    if n <= 0 {
        Ok(Seq::empty())
    } else {
        match labels_prefix(ins, n - 1) {
            Err(e) => Err(e),
            Ok(t) => {
                let i = ins[n - 1];
                if i.op != OP_LABEL {
                    Ok(t)
                } else if i.args.len() != 1 {
                    Err((LoadErrorKind::LabelArity, n - 1))
                } else if table_has(t, strip_colon(i.args[0])) {
                    Err((LoadErrorKind::DuplicateLabel, n - 1))
                } else {
                    Ok(t.push((strip_colon(i.args[0]), n - 1)))
                }
            },
        }
    }
}

pub open spec fn labels_of(ins: Seq<InstrView>) -> Result<Seq<(Seq<u8>, int)>, (LoadErrorKind, int)> {
    labels_prefix(ins, ins.len() as int)
}

/// The class-position table of the first `n` instructions: each `struct` or
/// `class` declaration with its name and index; or the first error, with its
/// kind and the index of the instruction at fault.
pub open spec fn classes_prefix(ins: Seq<InstrView>, n: int) -> Result<
    Seq<(Seq<u8>, int)>,
    (LoadErrorKind, int),
>
    decreases n,
{
    if n <= 0 {
        Ok(Seq::empty())
    } else {
        match classes_prefix(ins, n - 1) {
            Err(e) => Err(e),
            Ok(t) => {
                let i = ins[n - 1];
                if !is_class_decl(i.op) {
                    Ok(t)
                } else if i.args.len() < 1 {
                    Err((LoadErrorKind::ClassArity, n - 1))
                } else if table_has(t, strip_colon(i.args[0])) {
                    Err((LoadErrorKind::DuplicateClass, n - 1))
                } else {
                    Ok(t.push((strip_colon(i.args[0]), n - 1)))
                }
            },
        }
    }
}

pub open spec fn classes_of(ins: Seq<InstrView>) -> Result<Seq<(Seq<u8>, int)>, (LoadErrorKind, int)> {
    classes_prefix(ins, ins.len() as int)
}

/// Whether `e` reports the pre-scan error of `result`: its kind, and the
/// source line and text of the instruction at fault.
pub open spec fn reports(e: LoadError, ins: Seq<InstrView>, result: Result<
    Seq<(Seq<u8>, int)>,
    (LoadErrorKind, int),
>) -> bool {
    match result {
        Err((k, j)) => e.kind == k && 0 <= j < ins.len() && e.line_idx == ins[j].line_idx
            && e.raw@ == ins[j].raw,
        Ok(_) => false,
    }
}

/// Drops a trailing colon.
pub fn strip_colon_bytes(s: &Vec<u8>) -> (r: Vec<u8>)
    ensures
        r@ == strip_colon(s@),
{
    let mut r = copy_range(s.as_slice(), 0, s.len());
    assert(s@.subrange(0, s@.len() as int) =~= s@);
    if r.len() > 0 && r[r.len() - 1] == COLON {
        r.pop();
    }
    r
}

proof fn lemma_table_has(t: Seq<(Vec<u8>, usize)>, name: Seq<u8>)
    ensures
        table_has(positions_view(t), name) == has_key(keys_of(t), name),
{
    if table_has(positions_view(t), name) {
        let j = choose|j: int| 0 <= j < positions_view(t).len() && positions_view(t)[j].0 == name;
        assert(keys_of(t)[j] == name);
    }
    if has_key(keys_of(t), name) {
        let j = choose|j: int| 0 <= j < keys_of(t).len() && keys_of(t)[j] == name;
        assert(positions_view(t)[j].0 == name);
    }
}

proof fn lemma_labels_error_persists(ins: Seq<InstrView>, n: int, m: int)
    requires
        n <= m,
        labels_prefix(ins, n) is Err,
    ensures
        labels_prefix(ins, m) == labels_prefix(ins, n),
    decreases m - n,
{
    if n < m {
        lemma_labels_error_persists(ins, n, m - 1);
    }
}

proof fn lemma_classes_error_persists(ins: Seq<InstrView>, n: int, m: int)
    requires
        n <= m,
        classes_prefix(ins, n) is Err,
    ensures
        classes_prefix(ins, m) == classes_prefix(ins, n),
    decreases m - n,
{
    if n < m {
        lemma_classes_error_persists(ins, n, m - 1);
    }
}

/// Records each label with the index of its instruction. A `label` without
/// exactly one argument, or a name declared twice, is fatal.
pub fn collect_labels(path: &str, instructions: &Vec<Instruction>) -> (r: Result<
    Vec<(Vec<u8>, usize)>,
    LoadError,
>)
    ensures
        match r {
            Ok(t) => labels_of(instrs_view(instructions@)) == Ok::<_, (LoadErrorKind, int)>(positions_view(t@)),
            Err(e) => reports(e, instrs_view(instructions@), labels_of(instrs_view(instructions@)))
                && e.path@ == path@,
        },
{
    collect_names(path, instructions, true)
}

/// Records each `struct` or `class` declaration with the index of its
/// instruction. A declaration without a name, or a name declared twice, is
/// fatal.
pub fn collect_classes(path: &str, instructions: &Vec<Instruction>) -> (r: Result<
    Vec<(Vec<u8>, usize)>,
    LoadError,
>)
    ensures
        match r {
            Ok(t) => classes_of(instrs_view(instructions@)) == Ok::<_, (LoadErrorKind, int)>(positions_view(t@)),
            Err(e) => reports(e, instrs_view(instructions@), classes_of(instrs_view(instructions@)))
                && e.path@ == path@,
        },
{
    collect_names(path, instructions, false)
}

pub open spec fn names_prefix(ins: Seq<InstrView>, n: int, labels: bool) -> Result<
    Seq<(Seq<u8>, int)>,
    (LoadErrorKind, int),
> {
    if labels {
        labels_prefix(ins, n)
    } else {
        classes_prefix(ins, n)
    }
}

/// The shared pre-scan: labels when `labels`, class declarations otherwise.
fn collect_names(path: &str, instructions: &Vec<Instruction>, labels: bool) -> (r: Result<
    Vec<(Vec<u8>, usize)>,
    LoadError,
>)
    ensures
        match r {
            Ok(t) => names_prefix(instrs_view(instructions@), instructions@.len() as int, labels)
                == Ok::<_, (LoadErrorKind, int)>(positions_view(t@)),
            Err(e) => reports(
                e,
                instrs_view(instructions@),
                names_prefix(instrs_view(instructions@), instructions@.len() as int, labels),
            ) && e.path@ == path@,
        },
{
    let ghost ins = instrs_view(instructions@);
    let mut table: Vec<(Vec<u8>, usize)> = Vec::new();
    let mut k: usize = 0;
    assert(positions_view(table@) =~= Seq::<(Seq<u8>, int)>::empty());
    while k < instructions.len()
        invariant
            k <= instructions@.len(),
            ins == instrs_view(instructions@),
            names_prefix(ins, k as int, labels) == Ok::<_, (LoadErrorKind, int)>(positions_view(table@)),
        decreases instructions@.len() - k,
    {
        let instr = &instructions[k];
        assert(ins[k as int] == instr@);
        let selected = if labels {
            instr.op == OP_LABEL
        } else {
            instr.op == OP_STRUCT || instr.op == OP_CLASS
        };
        if selected {
            let bad_arity = if labels {
                instr.args.len() != 1
            } else {
                instr.args.len() < 1
            };
            let kind = if labels {
                LoadErrorKind::LabelArity
            } else {
                LoadErrorKind::ClassArity
            };
            if bad_arity {
                proof {
                    if labels {
                        lemma_labels_error_persists(ins, k + 1, ins.len() as int);
                    } else {
                        lemma_classes_error_persists(ins, k + 1, ins.len() as int);
                    }
                }
                return Err(
                    LoadError {
                        kind,
                        path: path.to_owned(),
                        line_idx: instr.line_idx,
                        raw: instr.raw.clone(),
                    },
                );
            }
            assert(byte_strings(instr.args@)[0] == instr.args@[0]@);
            let name = strip_colon_bytes(&instr.args[0]);
            let found = position_of(&table, name.as_slice());
            proof {
                lemma_table_has(table@, name@);
            }
            if found.is_some() {
                let kind = if labels {
                    LoadErrorKind::DuplicateLabel
                } else {
                    LoadErrorKind::DuplicateClass
                };
                proof {
                    let j = found.unwrap() as int;
                    assert(keys_of(table@)[j] == name@);
                    if labels {
                        lemma_labels_error_persists(ins, k + 1, ins.len() as int);
                    } else {
                        lemma_classes_error_persists(ins, k + 1, ins.len() as int);
                    }
                }
                return Err(
                    LoadError {
                        kind,
                        path: path.to_owned(),
                        line_idx: instr.line_idx,
                        raw: instr.raw.clone(),
                    },
                );
            }
            let ghost before = table@;
            table.push((name, k));
            assert(positions_view(table@) =~= positions_view(before).push((name@, k as int)));
        }
        k = k + 1;
    }
    Ok(table)
}

proof fn lemma_label_kept(ins: Seq<InstrView>, i: int, n: int)
    requires
        0 <= i < n <= ins.len(),
        ins[i].op == OP_LABEL,
        ins[i].args.len() == 1,
        labels_prefix(ins, n) is Ok,
    ensures
        table_has(labels_prefix(ins, n)->Ok_0, strip_colon(ins[i].args[0])),
    decreases n,
{
    let name = strip_colon(ins[i].args[0]);
    if n == i + 1 {
        if labels_prefix(ins, i) is Err {
            lemma_labels_error_persists(ins, i, n);
        }
        let t = labels_prefix(ins, i)->Ok_0;
        if table_has(t, name) {
        } else {
            assert(labels_prefix(ins, n)->Ok_0[t.len() as int].0 == name);
        }
    } else {
        if labels_prefix(ins, n - 1) is Err {
            lemma_labels_error_persists(ins, n - 1, n);
        }
        lemma_label_kept(ins, i, n - 1);
        let t = labels_prefix(ins, n - 1)->Ok_0;
        let j = choose|j: int| 0 <= j < t.len() && t[j].0 == name;
        assert(labels_prefix(ins, n)->Ok_0[j].0 == name);
    }
}

/// Two labels with the same name make the pre-scan fail, whatever else the
/// program holds.
pub proof fn lemma_duplicate_labels_rejected(ins: Seq<InstrView>, i: int, j: int)
    requires
        0 <= i < j < ins.len(),
        ins[i].op == OP_LABEL,
        ins[j].op == OP_LABEL,
        ins[i].args.len() == 1,
        ins[j].args.len() == 1,
        strip_colon(ins[i].args[0]) == strip_colon(ins[j].args[0]),
    ensures
        labels_of(ins) is Err,
{
    if labels_prefix(ins, j) is Ok {
        lemma_label_kept(ins, i, j);
    }
    assert(labels_prefix(ins, j + 1) is Err);
    lemma_labels_error_persists(ins, j + 1, ins.len() as int);
}

/// Every index in a label table of the first `n` instructions is below `n`.
pub proof fn lemma_labels_in_range(ins: Seq<InstrView>, n: int)
    requires
        labels_prefix(ins, n) is Ok,
    ensures
        forall|j: int|
            0 <= j < (labels_prefix(ins, n)->Ok_0).len() ==> 0 <= #[trigger] (labels_prefix(ins, n)->Ok_0)[j].1 < n,
    decreases n,
{
    if n > 0 {
        if labels_prefix(ins, n - 1) is Err {
            lemma_labels_error_persists(ins, n - 1, n);
        }
        lemma_labels_in_range(ins, n - 1);
    }
}

/// Every index in a class-position table of the first `n` instructions is below `n`.
pub proof fn lemma_classes_in_range(ins: Seq<InstrView>, n: int)
    requires
        classes_prefix(ins, n) is Ok,
    ensures
        forall|j: int|
            0 <= j < (classes_prefix(ins, n)->Ok_0).len() ==> 0 <= #[trigger] (classes_prefix(ins, n)->Ok_0)[j].1 < n,
    decreases n,
{
    if n > 0 {
        if classes_prefix(ins, n - 1) is Err {
            lemma_classes_error_persists(ins, n - 1, n);
        }
        lemma_classes_in_range(ins, n - 1);
    }
}

} // verus!
