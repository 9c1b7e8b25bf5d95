//! The two passes of the assembler.
//!
//! The first pass walks the cleaned source lines once, records every
//! label declaration against the current executable-line counter, and
//! keeps the executable lines in order. The second pass turns each
//! executable line into one 16-bit machine word, resolving address
//! operands against the symbol table as it goes.

use crate::encode::{encode_comp, encode_word};
use crate::mnemonic::{comp_fields, parse_comp_line};
use crate::symbols::{resolve_spec, SymModel, SymbolTable};
use crate::text::{clean_line, cleaned, copy_range, find_byte, find_pos, views};
use crate::AsmError;
use vstd::prelude::*;

verus! {

/// A cleaned line that opens with `(`: a label declaration.
pub open spec fn line_is_label(l: Seq<u8>) -> bool {
    cleaned(l).len() > 0 && cleaned(l)[0] == ('(' as u8)
}

/// A cleaned line that is neither blank nor a label: an executable
/// instruction, occupying one word slot.
pub open spec fn line_is_exec(l: Seq<u8>) -> bool {
    cleaned(l).len() > 0 && cleaned(l)[0] != ('(' as u8)
}

/// A label declaration is well formed when a closing parenthesis follows
/// the opening one.
pub open spec fn label_ok(l: Seq<u8>) -> bool {
    find_pos(cleaned(l), (')' as u8), 1) < cleaned(l).len()
}

/// The label's name: the text between the opening parenthesis and the
/// first closing one.
pub open spec fn label_name(l: Seq<u8>) -> Seq<u8> {
    cleaned(l).subrange(1, find_pos(cleaned(l), (')' as u8), 1))
}

/// Every label declaration among `lines` has its closing parenthesis.
pub open spec fn labels_ok(lines: Seq<Seq<u8>>) -> bool {
    forall|i: int| 0 <= i < lines.len() ==> (line_is_label(lines[i]) ==> label_ok(lines[i]))
}

/// The label bindings gathered by the first pass from line `i` on, given
/// the executable-line counter `cnt` and the bindings `acc` made so far.
/// A label is bound to the counter as it stands, the index of the next
/// executable line; an executable line advances the counter; a later
/// binding of the same name overrides an earlier one.
pub open spec fn labels_from(lines: Seq<Seq<u8>>, i: int, cnt: nat, acc: Map<Seq<u8>, nat>) -> Map<
    Seq<u8>,
    nat,
>
    decreases lines.len() - i,
{
    if i < 0 || i >= lines.len() {
        acc
    } else if line_is_label(lines[i]) {
        labels_from(lines, i + 1, cnt, acc.insert(label_name(lines[i]), cnt))
    } else if line_is_exec(lines[i]) {
        labels_from(lines, i + 1, cnt + 1, acc)
    } else {
        labels_from(lines, i + 1, cnt, acc)
    }
}

/// The cleaned executable lines from line `i` on, in source order.
pub open spec fn ops_from(lines: Seq<Seq<u8>>, i: int) -> Seq<Seq<u8>>
    decreases lines.len() - i,
{
    if i < 0 || i >= lines.len() {
        Seq::empty()
    } else if line_is_exec(lines[i]) {
        seq![cleaned(lines[i])] + ops_from(lines, i + 1)
    } else {
        ops_from(lines, i + 1)
    }
}

/// Number of executable lines among lines `k ..= i - 1`.
pub open spec fn exec_count_in(lines: Seq<Seq<u8>>, k: int, i: int) -> nat
    decreases i - k,
{
    if k >= i {
        0
    } else {
        (if line_is_exec(lines[k]) {
            1nat
        } else {
            0nat
        }) + exec_count_in(lines, k + 1, i)
    }
}

proof fn lemma_position_from(lines: Seq<Seq<u8>>, k: int, i: int)
    requires
        0 <= k <= i < lines.len(),
        line_is_exec(lines[i]),
    ensures
        exec_count_in(lines, k, i) < ops_from(lines, k).len(),
        ops_from(lines, k)[exec_count_in(lines, k, i) as int] == cleaned(lines[i]),
    decreases i - k,
{
    if k < i {
        lemma_position_from(lines, k + 1, i);
    }
}

/// The executable-line counter names positions: an executable line whose
/// counter reads `n` during the first pass is exactly the `n`-th element
/// of the executable-line sequence — for a source with no labels, the
/// counter of each instruction is its literal 0-based position.
pub proof fn lemma_counter_is_position(lines: Seq<Seq<u8>>, i: int)
    requires
        0 <= i < lines.len(),
        line_is_exec(lines[i]),
    ensures
        exec_count_in(lines, 0, i) < ops_from(lines, 0).len(),
        ops_from(lines, 0)[exec_count_in(lines, 0, i) as int] == cleaned(lines[i]),
{
    lemma_position_from(lines, 0, i);
}

/// No label line at or after line `k` declares `name`.
pub open spec fn no_label_binding(lines: Seq<Seq<u8>>, k: int, name: Seq<u8>) -> bool {
    forall|j: int|
        k <= j < lines.len() ==> !(line_is_label(lines[j]) && label_name(lines[j]) == name)
}

proof fn lemma_labels_preserve(
    lines: Seq<Seq<u8>>,
    k: int,
    cnt: nat,
    acc: Map<Seq<u8>, nat>,
    name: Seq<u8>,
)
    requires
        0 <= k,
        no_label_binding(lines, k, name),
    ensures
        labels_from(lines, k, cnt, acc).contains_key(name) == acc.contains_key(name),
        acc.contains_key(name) ==> labels_from(lines, k, cnt, acc)[name] == acc[name],
    decreases lines.len() - k,
{
    if k < lines.len() {
        if line_is_label(lines[k]) {
            assert(label_name(lines[k]) != name);
            lemma_labels_preserve(lines, k + 1, cnt, acc.insert(label_name(lines[k]), cnt), name);
        } else if line_is_exec(lines[k]) {
            lemma_labels_preserve(lines, k + 1, cnt + 1, acc, name);
        } else {
            lemma_labels_preserve(lines, k + 1, cnt, acc, name);
        }
    }
}

proof fn lemma_label_binds_from(
    lines: Seq<Seq<u8>>,
    k: int,
    cnt: nat,
    acc: Map<Seq<u8>, nat>,
    i: int,
    name: Seq<u8>,
)
    requires
        0 <= k <= i < lines.len(),
        line_is_label(lines[i]),
        label_name(lines[i]) == name,
        no_label_binding(lines, i + 1, name),
    ensures
        labels_from(lines, k, cnt, acc).contains_key(name),
        labels_from(lines, k, cnt, acc)[name] == cnt + exec_count_in(lines, k, i),
    decreases i - k,
{
    if k == i {
        lemma_labels_preserve(lines, i + 1, cnt, acc.insert(name, cnt), name);
    } else if line_is_label(lines[k]) {
        lemma_label_binds_from(lines, k + 1, cnt, acc.insert(label_name(lines[k]), cnt), i, name);
    } else if line_is_exec(lines[k]) {
        lemma_label_binds_from(lines, k + 1, cnt + 1, acc, i, name);
    } else {
        lemma_label_binds_from(lines, k + 1, cnt, acc, i, name);
    }
}

/// A label declaration addresses the next executable line: when line `i`
/// declares `(NAME)` and no later line declares the same name again, the
/// first pass binds `NAME` to the number of executable lines before line
/// `i` — the instruction index of the executable line that follows the
/// declaration. A label standing at the top of the source is thus bound
/// to index 0, even when it labels the very line it precedes.
pub proof fn lemma_label_addresses_next_instruction(lines: Seq<Seq<u8>>, i: int)
    requires
        0 <= i < lines.len(),
        line_is_label(lines[i]),
        no_label_binding(lines, i + 1, label_name(lines[i])),
    ensures
        labels_from(lines, 0, 0, Map::empty()).contains_key(label_name(lines[i])),
        labels_from(lines, 0, 0, Map::empty())[label_name(lines[i])] == exec_count_in(
            lines,
            0,
            i,
        ),
{
    lemma_label_binds_from(lines, 0, 0, Map::empty(), i, label_name(lines[i]));
}

/// First pass: clean every line, reject a label declaration with no
/// closing parenthesis, record each label against the executable-line
/// counter, and keep the executable lines in order. On success the
/// table holds exactly the label bindings and the variable counter
/// stands at 16.
pub fn first_pass(lines: &Vec<Vec<u8>>) -> (r: Result<(SymbolTable, Vec<Vec<u8>>), AsmError>)
    ensures
        match r {
            Ok(p) => labels_ok(views(lines@)) && p.0.wf() && p.0@ == (SymModel {
                table: labels_from(views(lines@), 0, 0, Map::empty()),
                next_var: 16nat,
            }) && views(p.1@) == ops_from(views(lines@), 0),
            Err(e) => e == AsmError::MalformedLabel && !labels_ok(views(lines@)),
        },
{
    let ghost lv = views(lines@);
    let mut st = SymbolTable::new();
    let mut ops: Vec<Vec<u8>> = Vec::new();
    let mut cnt: usize = 0;
    let mut i: usize = 0;
    while i < lines.len()
        invariant
            0 <= i <= lines.len(),
            lv == views(lines@),
            st.wf(),
            st@.next_var == 16,
            cnt <= i,
            cnt == ops@.len(),
            labels_from(lv, 0, 0, Map::empty()) == labels_from(lv, i as int, cnt as nat, st@.table),
            ops_from(lv, 0) == views(ops@) + ops_from(lv, i as int),
            forall|j: int| 0 <= j < i ==> (line_is_label(lv[j]) ==> label_ok(lv[j])),
        decreases lines.len() - i,
    {
        let c = clean_line(&lines[i]);
        proof {
            assert(lv[i as int] == lines@[i as int]@);
            assert(c@ == cleaned(lv[i as int]));
        }
        if c.len() == 0 {
        } else if c[0] == ('(' as u8) {
            let p = find_byte(&c, (')' as u8), 1);
            if p < c.len() {
                let nm = copy_range(&c, 1, p);
                proof {
                    assert(nm@ == label_name(lv[i as int]));
                }
                st.insert(nm, cnt);
            } else {
                proof {
                    assert(line_is_label(lv[i as int]) && !label_ok(lv[i as int]));
                }
                return Err(AsmError::MalformedLabel);
            }
        } else {
            let ghost old_ops = views(ops@);
            ops.push(c);
            proof {
                assert(views(ops@) =~= old_ops.push(cleaned(lv[i as int])));
                assert(old_ops.push(cleaned(lv[i as int])) + ops_from(lv, i + 1) =~= old_ops + (
                seq![cleaned(lv[i as int])] + ops_from(lv, i + 1)));
            }
            cnt = cnt + 1;
        }
        i = i + 1;
    }
    proof {
        assert(ops_from(lv, i as int) =~= Seq::<Seq<u8>>::empty());
        assert(views(ops@) + Seq::<Seq<u8>>::empty() =~= views(ops@));
    }
    Ok((st, ops))
}

/// The machine words of the executable lines from `i` on, starting from
/// symbol-table state `m`. An address line resolves its operand and, if
/// the address fits the 15-bit field, contributes it as a word; a
/// compute line contributes its encoded word; the first failure aborts
/// the whole translation.
pub open spec fn words_from(ops: Seq<Seq<u8>>, i: int, m: SymModel) -> Result<Seq<u16>, AsmError>
    decreases ops.len() - i,
{
    if i < 0 || i >= ops.len() {
        Ok(Seq::empty())
    } else {
        let op = ops[i];
        if op.len() > 0 && op[0] == ('@' as u8) {
            let (m2, a) = resolve_spec(m, op.subrange(1, op.len() as int));
            if a > 32767 {
                Err(AsmError::AddressOverflow)
            } else {
                match words_from(ops, i + 1, m2) {
                    Ok(rest) => Ok(seq![a as u16] + rest),
                    Err(e) => Err(e),
                }
            }
        } else {
            match comp_fields(op) {
                Some(ci) => match words_from(ops, i + 1, m) {
                    Ok(rest) => Ok(seq![encode_word(ci)] + rest),
                    Err(e) => Err(e),
                },
                None => Err(AsmError::UnknownComp),
            }
        }
    }
}

/// Second pass: translate every executable line into its machine word,
/// resolving address operands against (and extending) the symbol table.
pub fn second_pass(st: SymbolTable, ops: &Vec<Vec<u8>>) -> (r: Result<Vec<u16>, AsmError>)
    requires
        st.wf(),
    ensures
        match r {
            Ok(ws) => words_from(views(ops@), 0, st@) == Ok::<Seq<u16>, AsmError>(ws@),
            Err(e) => words_from(views(ops@), 0, st@) == Err::<Seq<u16>, AsmError>(e),
        },
{
    let ghost ov = views(ops@);
    let mut cur = st;
    let mut words: Vec<u16> = Vec::new();
    let mut i: usize = 0;
    while i < ops.len()
        invariant
            0 <= i <= ops.len(),
            ov == views(ops@),
            cur.wf(),
            words_from(ov, 0, st@) == (match words_from(ov, i as int, cur@) {
                Ok(rest) => Ok::<Seq<u16>, AsmError>(words@ + rest),
                Err(e) => Err::<Seq<u16>, AsmError>(e),
            }),
        decreases ops.len() - i,
    {
        let op = &ops[i];
        proof {
            assert(ov[i as int] == op@);
        }
        if op.len() > 0 && op[0] == ('@' as u8) {
            let operand = copy_range(op, 1, op.len());
            let ghost before = cur@;
            match cur.resolve(&operand) {
                Ok(a) => {
                    let ghost old_words = words@;
                    words.push(a);
                    proof {
                        let (m2, av) = resolve_spec(before, operand@);
                        assert(av == a && cur@ == m2);
                        match words_from(ov, i + 1, m2) {
                            Ok(rest) => {
                                assert(old_words + (seq![av as u16] + rest) =~= words@ + rest);
                            },
                            Err(_) => {},
                        }
                    }
                },
                Err(e) => {
                    proof {
                        let (m2, av) = resolve_spec(cur@, operand@);
                        assert(av > 32767);
                        assert(words_from(ov, i as int, cur@) == Err::<Seq<u16>, AsmError>(
                            AsmError::AddressOverflow,
                        ));
                    }
                    return Err(e);
                },
            }
        } else {
            match parse_comp_line(op) {
                Ok(ci) => {
                    let w = encode_comp(&ci);
                    let ghost old_words = words@;
                    words.push(w);
                    proof {
                        match words_from(ov, i + 1, cur@) {
                            Ok(rest) => {
                                assert(old_words + (seq![encode_word(ci)] + rest) =~= words@
                                    + rest);
                            },
                            Err(_) => {},
                        }
                    }
                },
                Err(e) => {
                    proof {
                        assert(words_from(ov, i as int, cur@) == Err::<Seq<u16>, AsmError>(
                            AsmError::UnknownComp,
                        ));
                    }
                    return Err(e);
                },
            }
        }
        i = i + 1;
    }
    proof {
        assert(words@ + Seq::<u16>::empty() =~= words@);
    }
    Ok(words)
}

} // verus!
