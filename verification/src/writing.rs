//! The emitted text of an instruction, stripped of everything that is no
//! operation, is the text of the program that the instruction stands for.

use crate::block::{block_valid, if_text, instr_text, instr_valid, prefix_exit, prefix_text, while_text, Step};
use crate::builder::{repeat, tabs, travel, BFBuilder};
use crate::coherence::{block_code, if_round, step_code, while_round};
use crate::idioms::{
    add_code, clear_code, copy_code, distance_code, distance_loop, distance_round, div_code, div_front, div_loop,
    div_round, drain_loop, carry_loop, left_loop, move_code, mul_code, mul_loop, mul_round, negate_code,
    refill_loop, right_loop, set_code, sub_code, take_loop, unmark_loop, unset_loop, wipe_code, zero_loop,
};
use crate::instructions::{
    clear_text, copy_text, distance_text, div_text, drain_text, move_text, mul_text, negate_text, refill_text,
    set_text, wipe_text, Instruction,
};
use crate::memory::{CellSize, GeneratorModel};
use crate::tape::{
    lemma_strip_add, lemma_strip_drops, lemma_strip_keeps, lemma_written_add, lemma_written_loop,
    lemma_written_moves, lemma_written_one, lemma_written_times, moves, render_op, strip, written, Op,
};
use vstd::prelude::*;

verus! {

/// Stripping and writing both distribute over concatenation.
pub proof fn lemma_distribute()
    ensures
        forall|a: Seq<char>, b: Seq<char>| #[trigger] strip(a + b) == strip(a) + strip(b),
        forall|x: Seq<Op>, y: Seq<Op>| #[trigger] written(x + y) == written(x) + written(y),
        forall|n: usize| #[trigger] strip(tabs(n)) == Seq::<char>::empty(),
        forall|from: usize, to: usize| #[trigger] strip(travel(from, to)) == travel(from, to),
        forall|from: usize, to: usize| #[trigger] written(moves(from, to)) == travel(from, to),
        forall|body: Seq<Op>| #[trigger] written(seq![Op::Loop(body)]) == seq!['['] + written(body) + seq![']'],
{
    assert forall|a: Seq<char>, b: Seq<char>| #[trigger] strip(a + b) == strip(a) + strip(b) by {
        lemma_strip_add(a, b);
    }
    assert forall|x: Seq<Op>, y: Seq<Op>| #[trigger] written(x + y) == written(x) + written(y) by {
        lemma_written_add(x, y);
    }
    assert forall|n: usize| #[trigger] strip(tabs(n)) == Seq::<char>::empty() by {
        lemma_strip_drops(tabs(n));
    }
    assert forall|from: usize, to: usize| #[trigger] strip(travel(from, to)) == travel(from, to) by {
        lemma_written_moves(from, to);
    }
    assert forall|from: usize, to: usize| #[trigger] written(moves(from, to)) == travel(from, to) by {
        lemma_written_moves(from, to);
    }
    assert forall|body: Seq<Op>| #[trigger]
        written(seq![Op::Loop(body)]) == seq!['['] + written(body) + seq![']'] by {
        lemma_written_loop(body);
    }
}

/// What the short pieces of emitted text are stripped to.
pub proof fn lemma_pieces()
    ensures
        strip("["@) == seq!['['],
        strip("]"@) == seq![']'],
        strip("-"@) == seq!['-'],
        strip("+"@) == seq!['+'],
        strip(","@) == seq![','],
        strip("."@) == seq!['.'],
        strip("@"@) == seq!['@'],
        strip("\n"@) == Seq::<char>::empty(),
        strip("[-]"@) == seq!['[', '-', ']'],
        strip("[-]+\n"@) == seq!['[', '-', ']', '+'],
        strip("\nDIV:\n"@) == Seq::<char>::empty(),
        written(seq![Op::Dec]) == seq!['-'],
        written(seq![Op::Inc]) == seq!['+'],
        written(seq![Op::Left]) == seq!['<'],
        written(seq![Op::Right]) == seq!['>'],
        written(seq![Op::Read]) == seq![','],
        written(seq![Op::Write]) == seq!['.'],
        written(seq![Op::Host]) == seq!['@'],
        written(seq![zero_loop()]) == seq!['[', '-', ']'],
{
    reveal_strlit("[");
    reveal_strlit("]");
    reveal_strlit("-");
    reveal_strlit("+");
    reveal_strlit(",");
    reveal_strlit(".");
    reveal_strlit("@");
    reveal_strlit("\n");
    reveal_strlit("[-]");
    reveal_strlit("[-]+\n");
    reveal_strlit("\nDIV:\n");
    lemma_strip_keeps("["@);
    lemma_strip_keeps("]"@);
    lemma_strip_keeps("-"@);
    lemma_strip_keeps("+"@);
    lemma_strip_keeps(","@);
    lemma_strip_keeps("."@);
    lemma_strip_keeps("@"@);
    lemma_strip_drops("\n"@);
    lemma_strip_keeps("[-]"@);
    lemma_strip_drops("\nDIV:\n"@);
    assert("["@ =~= seq!['[']);
    assert("]"@ =~= seq![']']);
    assert("-"@ =~= seq!['-']);
    assert("+"@ =~= seq!['+']);
    assert(","@ =~= seq![',']);
    assert("."@ =~= seq!['.']);
    assert("@"@ =~= seq!['@']);
    assert("[-]"@ =~= seq!['[', '-', ']']);
    assert("[-]+\n"@ =~= seq!['[', '-', ']', '+'] + seq!['\n']);
    lemma_strip_add(seq!['[', '-', ']', '+'], seq!['\n']);
    lemma_strip_keeps(seq!['[', '-', ']', '+']);
    lemma_strip_drops(seq!['\n']);
    assert(seq!['[', '-', ']', '+'] + Seq::<char>::empty() =~= seq!['[', '-', ']', '+']);
    lemma_written_one(Op::Dec);
    lemma_written_one(Op::Inc);
    lemma_written_one(Op::Left);
    lemma_written_one(Op::Right);
    lemma_written_one(Op::Read);
    lemma_written_one(Op::Write);
    lemma_written_one(Op::Host);
    lemma_written_loop(seq![Op::Dec]);
    assert(seq!['['] + seq!['-'] + seq![']'] =~= seq!['[', '-', ']']);
}

/// The text of `Clear`.
pub proof fn lemma_clear_text(cell: usize, from: usize, indent: usize)
    ensures
        strip(clear_text(cell, from, indent)) == written(clear_code(cell, from)),
{
    lemma_distribute();
    lemma_pieces();
    assert(strip(clear_text(cell, from, indent)) =~= travel(from, cell) + seq!['[', '-', ']']);
}

/// The text of `SetCell`.
pub proof fn lemma_set_text(cell: usize, value: CellSize, from: usize, indent: usize)
    ensures
        strip(set_text(cell, value, from, indent)) == written(set_code(cell, value, from)),
{
    lemma_distribute();
    lemma_pieces();
    lemma_clear_text(cell, cell, indent);
    lemma_written_times(Op::Inc, '+', value as nat);
    lemma_strip_keeps(repeat('+', value as nat));
    assert(render_op(Op::Inc) == seq!['+']);
    assert(strip(set_text(cell, value, from, indent)) =~= travel(from, cell) + written(clear_code(cell, cell))
        + repeat('+', value as nat));
}

/// The text of the draining loop.
pub proof fn lemma_drain_text(a: usize, b: usize, plus: bool, indent: usize)
    ensures
        strip(
            drain_text(
                a,
                b,
                if plus {
                    "+"@
                } else {
                    "-"@
                },
                indent,
            ),
        ) == written(
            seq![
                drain_loop(
                    a,
                    b,
                    if plus {
                        Op::Inc
                    } else {
                        Op::Dec
                    },
                ),
            ],
        ),
{
    lemma_distribute();
    lemma_pieces();
    let c = if plus {
        '+'
    } else {
        '-'
    };
    let sign = if plus {
        "+"@
    } else {
        "-"@
    };
    let op = if plus {
        Op::Inc
    } else {
        Op::Dec
    };
    assert(strip(drain_text(a, b, sign, indent)) =~= seq!['['] + (seq!['-'] + travel(b, a) + seq![c] + travel(
        a,
        b,
    )) + seq![']']);
    assert(written(seq![op]) == seq![c]);
}

/// The text of `Add` and `Sub`.
pub proof fn lemma_fold_text(a: usize, b: usize, plus: bool, from: usize, indent: usize)
    ensures
        plus ==> strip(tabs(indent) + travel(from, b) + drain_text(a, b, "+"@, indent)) == written(
            add_code(a, b, from),
        ),
        !plus ==> strip(tabs(indent) + travel(from, b) + drain_text(a, b, "-"@, indent)) == written(
            sub_code(a, b, from),
        ),
{
    lemma_distribute();
    lemma_drain_text(a, b, plus, indent);
    assert(Seq::<char>::empty() + travel(from, b) =~= travel(from, b));
}

/// The text of `Move`.
pub proof fn lemma_move_text(a: usize, b: usize, from: usize, indent: usize)
    ensures
        strip(move_text(a, b, from, indent)) == written(move_code(a, b, from)),
{
    lemma_distribute();
    lemma_clear_text(a, from, indent);
    lemma_drain_text(a, b, true, indent);
    assert(strip(move_text(a, b, from, indent)) =~= written(clear_code(a, from)) + travel(a, b) + written(
        seq![drain_loop(a, b, Op::Inc)],
    ));
}


/// The text of the refilling loop.
pub proof fn lemma_refill_text(a: usize, tmp: usize, b: usize, indent: usize)
    ensures
        strip(refill_text(a, tmp, b, indent)) == written(seq![refill_loop(a, tmp, b)]),
        written(seq![refill_loop(a, tmp, b)]) == seq!['['] + (seq!['-'] + travel(tmp, a) + seq!['+'] + travel(
            a,
            b,
        ) + seq!['+'] + travel(b, tmp)) + seq![']'],
{
    lemma_distribute();
    lemma_pieces();
    assert(strip(refill_text(a, tmp, b, indent)) =~= seq!['['] + (seq!['-'] + travel(tmp, a) + seq!['+']
        + travel(a, b) + seq!['+'] + travel(b, tmp)) + seq![']']);
}

/// The text of the unsetting loop.
pub proof fn lemma_unset_text(a: usize, tmp: usize, indent: usize)
    ensures
        strip(tabs(indent) + "["@ + "[-]"@ + travel(a, tmp) + "-"@ + travel(tmp, a) + "]"@) == written(
            seq![unset_loop(a, tmp)],
        ),
{
    lemma_distribute();
    lemma_pieces();
    assert(written(seq![unset_loop(a, tmp)]) =~= seq!['['] + (seq!['[', '-', ']'] + travel(a, tmp) + seq!['-']
        + travel(tmp, a)) + seq![']']);
    assert(strip(tabs(indent) + "["@ + "[-]"@ + travel(a, tmp) + "-"@ + travel(tmp, a) + "]"@) =~= seq!['[']
        + (seq!['[', '-', ']'] + travel(a, tmp) + seq!['-'] + travel(tmp, a)) + seq![']']);
}

/// The text of the loop that gives `tmp` back to `a`.
pub proof fn lemma_regain_text(a: usize, tmp: usize, indent: usize)
    ensures
        strip(tabs(indent) + "["@ + "-"@ + travel(tmp, a) + "+"@ + travel(a, tmp) + "]"@) == written(
            seq![drain_loop(a, tmp, Op::Inc)],
        ),
{
    lemma_distribute();
    lemma_pieces();
    assert(written(seq![drain_loop(a, tmp, Op::Inc)]) =~= seq!['['] + (seq!['-'] + travel(tmp, a) + seq!['+']
        + travel(a, tmp)) + seq![']']);
    assert(strip(tabs(indent) + "["@ + "-"@ + travel(tmp, a) + "+"@ + travel(a, tmp) + "]"@) =~= seq!['['] + (
    seq!['-'] + travel(tmp, a) + seq!['+'] + travel(a, tmp)) + seq![']']);
}

/// The text of `BoolNegate`.
pub proof fn lemma_negate_text(a: usize, tmp: usize, from: usize, indent: usize)
    ensures
        strip(negate_text(a, tmp, from, indent)) == written(negate_code(a, tmp, from)),
{
    lemma_pieces();
    lemma_written_moves(from, tmp);
    lemma_written_moves(tmp, a);
    lemma_written_moves(a, tmp);
    let g1 = travel(from, tmp);
    let g2 = "[-]+\n"@;
    let g3 = travel(tmp, a);
    let g4 = tabs(indent) + "["@ + "[-]"@ + travel(a, tmp) + "-"@ + travel(tmp, a) + "]"@;
    let g5 = travel(a, tmp);
    let g6 = tabs(indent) + "["@ + "-"@ + travel(tmp, a) + "+"@ + travel(a, tmp) + "]"@;
    let g7 = travel(tmp, a);
    let leg1 = tabs(indent) + g1;
    let leg2 = leg1 + g2;
    let leg3 = leg2 + tabs(indent) + g3;
    let leg4 = leg3 + g4;
    let leg5 = leg4 + tabs(indent) + g5;
    let leg6 = leg5 + g6;
    let leg7 = leg6 + tabs(indent) + g7;
    assert(negate_text(a, tmp, from, indent) =~= leg7 + "\n"@);
    lemma_strip_first(indent, g1);
    lemma_strip_add(leg1, g2);
    lemma_strip_item(leg2, indent, g3);
    lemma_strip_add(leg3, g4);
    lemma_strip_item(leg4, indent, g5);
    lemma_strip_add(leg5, g6);
    lemma_strip_item(leg6, indent, g7);
    lemma_strip_line(leg7);
    lemma_unset_text(a, tmp, indent);
    lemma_regain_text(a, tmp, indent);
    let c1 = moves(from, tmp);
    let c2 = seq![zero_loop(), Op::Inc];
    let c3 = moves(tmp, a);
    let c4 = seq![unset_loop(a, tmp)];
    let c5 = moves(a, tmp);
    let c6 = seq![drain_loop(a, tmp, Op::Inc)];
    let c7 = moves(tmp, a);
    assert(c2 =~= seq![zero_loop()] + seq![Op::Inc]);
    lemma_written_add(seq![zero_loop()], seq![Op::Inc]);
    assert(written(c2) =~= seq!['[', '-', ']', '+']);
    lemma_written_add(c1, c2);
    lemma_written_add(c1 + c2, c3);
    lemma_written_add(c1 + c2 + c3, c4);
    lemma_written_add(c1 + c2 + c3 + c4, c5);
    lemma_written_add(c1 + c2 + c3 + c4 + c5, c6);
    lemma_written_add(c1 + c2 + c3 + c4 + c5 + c6, c7);
}

/// The text of `Copy`.
pub proof fn lemma_copy_text(a: usize, tmp: usize, b: usize, from: usize, indent: usize)
    ensures
        strip(copy_text(a, tmp, b, from, indent)) == written(copy_code(a, tmp, b, from)),
{
    lemma_distribute();
    lemma_pieces();
    lemma_clear_text(a, from, indent);
    lemma_move_text(tmp, b, a, indent);
    lemma_refill_text(a, tmp, b, indent);
    assert(strip(copy_text(a, tmp, b, from, indent)) =~= written(clear_code(a, from)) + written(
        move_code(tmp, b, a),
    ) + travel(b, tmp) + written(seq![refill_loop(a, tmp, b)]) + travel(tmp, a));
}

/// The travel over a short fixed distance.
pub proof fn lemma_short_travel(from: usize)
    ensures
        from + 1 <= usize::MAX ==> travel(from, (from + 1) as usize) == seq!['>'],
        from + 2 <= usize::MAX ==> travel(from, (from + 2) as usize) == seq!['>', '>'],
        from + 3 <= usize::MAX ==> travel(from, (from + 3) as usize) == seq!['>', '>', '>'],
        from + 4 <= usize::MAX ==> travel(from, (from + 4) as usize) == seq!['>', '>', '>', '>'],
        from + 1 <= usize::MAX ==> travel((from + 1) as usize, from) == seq!['<'],
        from + 2 <= usize::MAX ==> travel((from + 2) as usize, from) == seq!['<', '<'],
        from + 3 <= usize::MAX ==> travel((from + 3) as usize, from) == seq!['<', '<', '<'],
{
    if from + 1 <= usize::MAX {
        assert(travel(from, (from + 1) as usize) =~= seq!['>']);
        assert(travel((from + 1) as usize, from) =~= seq!['<']);
    }
    if from + 2 <= usize::MAX {
        assert(travel(from, (from + 2) as usize) =~= seq!['>', '>']);
        assert(travel((from + 2) as usize, from) =~= seq!['<', '<']);
    }
    if from + 3 <= usize::MAX {
        assert(travel(from, (from + 3) as usize) =~= seq!['>', '>', '>']);
        assert(travel((from + 3) as usize, from) =~= seq!['<', '<', '<']);
    }
    if from + 4 <= usize::MAX {
        assert(travel(from, (from + 4) as usize) =~= seq!['>', '>', '>', '>']);
    }
}

/// Stripping a text to which an indented piece was appended.
pub proof fn lemma_strip_item(prefix: Seq<char>, indent: usize, piece: Seq<char>)
    ensures
        strip(prefix + tabs(indent) + piece) == strip(prefix) + strip(piece),
{
    lemma_strip_add(prefix + tabs(indent), piece);
    lemma_strip_add(prefix, tabs(indent));
    lemma_strip_drops(tabs(indent));
    assert(strip(prefix) + Seq::<char>::empty() =~= strip(prefix));
}

/// Stripping an indented piece.
pub proof fn lemma_strip_first(indent: usize, piece: Seq<char>)
    ensures
        strip(tabs(indent) + piece) == strip(piece),
{
    lemma_strip_add(tabs(indent), piece);
    lemma_strip_drops(tabs(indent));
    assert(Seq::<char>::empty() + strip(piece) =~= strip(piece));
}

/// Stripping a text to which a line break was appended.
pub proof fn lemma_strip_line(prefix: Seq<char>)
    ensures
        strip(prefix + "\n"@) == strip(prefix),
{
    lemma_pieces();
    lemma_strip_add(prefix, "\n"@);
    assert(strip(prefix) + Seq::<char>::empty() =~= strip(prefix));
}

/// The text of the two inner loops of the multiplication loop.
pub proof fn lemma_mul_inner_text(base: usize)
    requires
        base + 4 <= usize::MAX,
    ensures
        written(seq![refill_loop((base + 2) as usize, (base + 1) as usize, (base + 3) as usize)]) == seq![
            '[',
            '-',
            '>',
            '+',
            '>',
            '+',
            '<',
            '<',
            ']',
        ],
        written(seq![drain_loop((base + 1) as usize, (base + 2) as usize, Op::Inc)]) == seq![
            '[',
            '-',
            '<',
            '+',
            '>',
            ']',
        ],
{
    lemma_pieces();
    let b1 = (base + 1) as usize;
    let b2 = (base + 2) as usize;
    let b3 = (base + 3) as usize;
    lemma_short_travel(b1);
    lemma_short_travel(b2);
    lemma_written_moves(b1, b2);
    lemma_written_moves(b2, b3);
    lemma_written_moves(b3, b1);
    lemma_written_moves(b2, b1);
    let r1 = seq![Op::Dec];
    let r2 = moves(b1, b2);
    let r3 = seq![Op::Inc];
    let r4 = moves(b2, b3);
    let r5 = seq![Op::Inc];
    let r6 = moves(b3, b1);
    lemma_written_add(r1, r2);
    lemma_written_add(r1 + r2, r3);
    lemma_written_add(r1 + r2 + r3, r4);
    lemma_written_add(r1 + r2 + r3 + r4, r5);
    lemma_written_add(r1 + r2 + r3 + r4 + r5, r6);
    lemma_written_loop(r1 + r2 + r3 + r4 + r5 + r6);
    assert(written(seq![refill_loop(b2, b1, b3)]) =~= seq!['[', '-', '>', '+', '>', '+', '<', '<', ']']);
    let d1 = seq![Op::Dec];
    let d2 = moves(b2, b1);
    let d3 = seq![Op::Inc];
    let d4 = moves(b1, b2);
    lemma_written_add(d1, d2);
    lemma_written_add(d1 + d2, d3);
    lemma_written_add(d1 + d2 + d3, d4);
    lemma_written_loop(d1 + d2 + d3 + d4);
    assert(written(seq![drain_loop(b1, b2, Op::Inc)]) =~= seq!['[', '-', '<', '+', '>', ']']);
}

/// The text of the multiplication loop.
pub proof fn lemma_mul_loop_text(base: usize)
    requires
        base + 4 <= usize::MAX,
    ensures
        written(seq![mul_loop(base)]) == "[>[->+>+<<]>[-<+>]<<-]"@,
        strip("[>[->+>+<<]>[-<+>]<<-]"@) == "[>[->+>+<<]>[-<+>]<<-]"@,
{
    lemma_pieces();
    reveal_strlit("[>[->+>+<<]>[-<+>]<<-]");
    lemma_strip_keeps("[>[->+>+<<]>[-<+>]<<-]"@);
    let b1 = (base + 1) as usize;
    let b2 = (base + 2) as usize;
    let b3 = (base + 3) as usize;
    lemma_short_travel(base);
    lemma_short_travel(b1);
    lemma_written_moves(base, b1);
    lemma_written_moves(b1, b2);
    lemma_written_moves(b2, base);
    lemma_mul_inner_text(base);
    let c1 = moves(base, b1);
    let c2 = seq![refill_loop(b2, b1, b3)];
    let c3 = moves(b1, b2);
    let c4 = seq![drain_loop(b1, b2, Op::Inc)];
    let c5 = moves(b2, base);
    let c6 = seq![Op::Dec];
    lemma_written_add(c1, c2);
    lemma_written_add(c1 + c2, c3);
    lemma_written_add(c1 + c2 + c3, c4);
    lemma_written_add(c1 + c2 + c3 + c4, c5);
    lemma_written_add(c1 + c2 + c3 + c4 + c5, c6);
    lemma_written_loop(mul_round(base));
    let round = written(mul_round(base));
    assert(round =~= seq!['>'] + written(c2) + seq!['>'] + written(c4) + seq!['<', '<'] + seq!['-']);
    assert(seq!['['] + round + seq![']'] =~= "[>[->+>+<<]>[-<+>]<<-]"@);
}

/// The text of `Mul`.
pub proof fn lemma_mul_text(a: usize, b: usize, base: usize, from: usize, indent: usize)
    requires
        base + 4 <= usize::MAX,
    ensures
        strip(mul_text(a, b, base, from, indent)) == written(mul_code(a, b, base, from)),
{
    let b1 = (base + 1) as usize;
    lemma_move_text(base, a, from, indent);
    lemma_move_text(b1, b, a, indent);
    lemma_mul_loop_text(base);
    lemma_written_moves(b, base);
    let g1 = move_text(base, a, from, indent);
    let g2 = move_text(b1, b, a, indent);
    let g3 = travel(b, base);
    let g4 = "[>[->+>+<<]>[-<+>]<<-]"@;
    let leg1 = tabs(indent) + g1;
    let leg2 = leg1 + tabs(indent) + g2;
    let leg3 = leg2 + tabs(indent) + g3;
    let leg4 = leg3 + g4;
    assert(mul_text(a, b, base, from, indent) =~= leg4 + "\n"@);
    lemma_strip_first(indent, g1);
    lemma_strip_item(leg1, indent, g2);
    lemma_strip_item(leg2, indent, g3);
    lemma_strip_add(leg3, g4);
    lemma_strip_line(leg4);
    let c1 = move_code(base, a, from);
    let c2 = move_code(b1, b, a);
    let c3 = moves(b, base);
    let c4 = seq![mul_loop(base)];
    lemma_written_add(c1, c2);
    lemma_written_add(c1 + c2, c3);
    lemma_written_add(c1 + c2 + c3, c4);
}

/// The text of the first half of a round of the division loop.
pub proof fn lemma_div_front_text(base: usize)
    requires
        base + 6 <= usize::MAX,
    ensures
        written(div_front(base)) == seq!['-', '>', '+', '>', '>', '+', '>', '-'],
{
    lemma_pieces();
    let b1 = (base + 1) as usize;
    let b3 = (base + 3) as usize;
    let b4 = (base + 4) as usize;
    lemma_short_travel(base);
    lemma_short_travel(b1);
    lemma_short_travel(b3);
    lemma_written_moves(base, b1);
    lemma_written_moves(b1, b3);
    lemma_written_moves(b3, b4);
    let c1 = seq![Op::Dec];
    let c2 = moves(base, b1);
    let c3 = seq![Op::Inc];
    let c4 = moves(b1, b3);
    let c5 = seq![Op::Inc];
    let c6 = moves(b3, b4);
    let c7 = seq![Op::Dec];
    lemma_written_add(c1, c2);
    lemma_written_add(c1 + c2, c3);
    lemma_written_add(c1 + c2 + c3, c4);
    lemma_written_add(c1 + c2 + c3 + c4, c5);
    lemma_written_add(c1 + c2 + c3 + c4 + c5, c6);
    lemma_written_add(c1 + c2 + c3 + c4 + c5 + c6, c7);
    assert(written(div_front(base)) =~= seq!['-', '>', '+', '>', '>', '+', '>', '-']);
}

/// The text of the carrying loop.
pub proof fn lemma_carry_text(base: usize)
    requires
        base + 6 <= usize::MAX,
    ensures
        written(seq![carry_loop(base)]) == seq![
            '[',
            '<',
            '<',
            '[',
            '-',
            '>',
            '>',
            '>',
            '+',
            '<',
            '<',
            '<',
            ']',
            '>',
            '>',
            '>',
            '>',
            '+',
            '<',
            '<',
            '-',
            '<',
            ']',
        ],
{
    lemma_pieces();
    let b1 = (base + 1) as usize;
    let b2 = (base + 2) as usize;
    let b3 = (base + 3) as usize;
    let b4 = (base + 4) as usize;
    let b5 = (base + 5) as usize;
    lemma_short_travel(b1);
    lemma_short_travel(b2);
    lemma_short_travel(b3);
    lemma_written_moves(b3, b1);
    lemma_written_moves(b1, b5);
    lemma_written_moves(b5, b3);
    lemma_written_moves(b3, b2);
    lemma_written_moves(b1, b4);
    lemma_written_moves(b4, b1);
    let d1 = seq![Op::Dec];
    let d2 = moves(b1, b4);
    let d3 = seq![Op::Inc];
    let d4 = moves(b4, b1);
    lemma_written_add(d1, d2);
    lemma_written_add(d1 + d2, d3);
    lemma_written_add(d1 + d2 + d3, d4);
    lemma_written_loop(d1 + d2 + d3 + d4);
    let drain = written(seq![drain_loop(b4, b1, Op::Inc)]);
    assert(drain =~= seq!['[', '-', '>', '>', '>', '+', '<', '<', '<', ']']);
    let c1 = moves(b3, b1);
    let c2 = seq![drain_loop(b4, b1, Op::Inc)];
    let c3 = moves(b1, b5);
    let c4 = seq![Op::Inc];
    let c5 = moves(b5, b3);
    let c6 = seq![Op::Dec];
    let c7 = moves(b3, b2);
    lemma_written_add(c1, c2);
    lemma_written_add(c1 + c2, c3);
    lemma_written_add(c1 + c2 + c3, c4);
    lemma_written_add(c1 + c2 + c3 + c4, c5);
    lemma_written_add(c1 + c2 + c3 + c4 + c5, c6);
    lemma_written_add(c1 + c2 + c3 + c4 + c5 + c6, c7);
    let inner = c1 + c2 + c3 + c4 + c5 + c6 + c7;
    assert(written(inner) =~= seq!['<', '<'] + drain + seq!['>', '>', '>', '>'] + seq!['+'] + seq!['<', '<']
        + seq!['-'] + seq!['<']);
    lemma_written_loop(inner);
    assert(written(seq![carry_loop(base)]) =~= seq!['['] + written(inner) + seq![']']);
}

/// The text of the division loop.
pub proof fn lemma_div_loop_text(base: usize)
    requires
        base + 6 <= usize::MAX,
    ensures
        written(seq![div_loop(base)]) == "[->+>>+>-[<-]<[<<[->>>+<<<]>>>>+<<-<]<<]"@,
        strip("[->+>>+>-[<-]<[<<[->>>+<<<]>>>>+<<-<]<<]"@) == "[->+>>+>-[<-]<[<<[->>>+<<<]>>>>+<<-<]<<]"@,
{
    lemma_pieces();
    reveal_strlit("[->+>>+>-[<-]<[<<[->>>+<<<]>>>>+<<-<]<<]");
    lemma_strip_keeps("[->+>>+>-[<-]<[<<[->>>+<<<]>>>>+<<-<]<<]"@);
    let b2 = (base + 2) as usize;
    lemma_short_travel(base);
    lemma_written_moves(b2, base);
    lemma_div_front_text(base);
    lemma_carry_text(base);
    let two = seq![Op::Left, Op::Dec];
    assert(two =~= seq![Op::Left] + seq![Op::Dec]);
    lemma_written_add(seq![Op::Left], seq![Op::Dec]);
    lemma_written_loop(two);
    let unmark = written(seq![unmark_loop()]);
    assert(unmark =~= seq!['[', '<', '-', ']']);
    let c1 = div_front(base);
    let c2 = seq![unmark_loop()];
    let c3 = seq![Op::Left];
    let c4 = seq![carry_loop(base)];
    let c5 = moves(b2, base);
    lemma_written_add(c1, c2);
    lemma_written_add(c1 + c2, c3);
    lemma_written_add(c1 + c2 + c3, c4);
    lemma_written_add(c1 + c2 + c3 + c4, c5);
    lemma_written_loop(div_round(base));
    let round = written(div_round(base));
    assert(round =~= written(c1) + unmark + seq!['<'] + written(c4) + seq!['<', '<']);
    assert(seq!['['] + round + seq![']'] =~= "[->+>>+>-[<-]<[<<[->>>+<<<]>>>>+<<-<]<<]"@);
}

/// The text of `Div`.
pub proof fn lemma_div_text(a: usize, b: usize, base: usize, from: usize, indent: usize)
    requires
        base + 6 <= usize::MAX,
    ensures
        strip(div_text(a, b, base, from, indent)) == written(div_code(a, b, base, from)),
{
    lemma_pieces();
    let b1 = (base + 1) as usize;
    let b2 = (base + 2) as usize;
    let b3 = (base + 3) as usize;
    let b4 = (base + 4) as usize;
    let b5 = (base + 5) as usize;
    lemma_move_text(base, a, from, indent);
    lemma_move_text(b4, b, a, indent);
    lemma_set_text(b1, 0, b, indent);
    lemma_set_text(b2, 0, b1, indent);
    lemma_set_text(b3, 0, b2, indent);
    lemma_set_text(b5, 0, b3, indent);
    lemma_div_loop_text(base);
    lemma_written_moves(b5, base);
    let g1 = move_text(base, a, from, indent);
    let g2 = move_text(b4, b, a, indent);
    let g3 = set_text(b1, 0, b, indent);
    let g4 = set_text(b2, 0, b1, indent);
    let g5 = set_text(b3, 0, b2, indent);
    let g6 = set_text(b5, 0, b3, indent);
    let g7 = travel(b5, base);
    let g8 = "[->+>>+>-[<-]<[<<[->>>+<<<]>>>>+<<-<]<<]"@;
    let leg0 = "\nDIV:\n"@;
    let leg1 = leg0 + tabs(indent) + g1;
    let leg2 = leg1 + tabs(indent) + g2;
    let leg3 = leg2 + tabs(indent) + g3;
    let leg4 = leg3 + tabs(indent) + g4;
    let leg5 = leg4 + tabs(indent) + g5;
    let leg6 = leg5 + tabs(indent) + g6;
    let leg7 = leg6 + tabs(indent) + g7;
    let leg8 = leg7 + g8;
    assert(div_text(a, b, base, from, indent) =~= leg8 + "\n"@);
    lemma_strip_item(leg0, indent, g1);
    lemma_strip_item(leg1, indent, g2);
    lemma_strip_item(leg2, indent, g3);
    lemma_strip_item(leg3, indent, g4);
    lemma_strip_item(leg4, indent, g5);
    lemma_strip_item(leg5, indent, g6);
    lemma_strip_item(leg6, indent, g7);
    lemma_strip_add(leg7, g8);
    lemma_strip_line(leg8);
    assert(Seq::<char>::empty() + strip(g1) =~= strip(g1));
    let c1 = move_code(base, a, from);
    let c2 = move_code(b4, b, a);
    let c3 = set_code(b1, 0, b);
    let c4 = set_code(b2, 0, b1);
    let c5 = set_code(b3, 0, b2);
    let c6 = set_code(b5, 0, b3);
    let c7 = moves(b5, base);
    let c8 = seq![div_loop(base)];
    lemma_written_add(c1, c2);
    lemma_written_add(c1 + c2, c3);
    lemma_written_add(c1 + c2 + c3, c4);
    lemma_written_add(c1 + c2 + c3 + c4, c5);
    lemma_written_add(c1 + c2 + c3 + c4 + c5, c6);
    lemma_written_add(c1 + c2 + c3 + c4 + c5 + c6, c7);
    lemma_written_add(c1 + c2 + c3 + c4 + c5 + c6 + c7, c8);
}

/// The text that zeroes the first cells of a block.
pub proof fn lemma_wipe_text(base: usize, count: nat, from: usize, indent: usize)
    requires
        base + count <= usize::MAX,
    ensures
        strip(wipe_text(base, count, from, indent)) == written(wipe_code(base, count, from)),
    decreases count,
{
    lemma_distribute();
    if count == 0 {
        assert(written(wipe_code(base, count, from)) =~= Seq::<char>::empty());
        assert(strip(wipe_text(base, count, from, indent)) =~= Seq::<char>::empty());
    } else {
        lemma_wipe_text(base, (count - 1) as nat, from, indent);
        let prev = if count == 1 {
            from
        } else {
            (base + count - 2) as usize
        };
        lemma_set_text((base + count - 1) as usize, 0, prev, indent);
        assert(strip(wipe_text(base, count, from, indent)) =~= strip(
            wipe_text(base, (count - 1) as nat, from, indent),
        ) + strip(set_text((base + count - 1) as usize, 0, prev, indent)));
    }
}

/// The text of the comparison loop and what follows it.
pub proof fn lemma_distance_loop_text()
    ensures
        written(seq![distance_loop()] + seq![Op::Left, Op::Left, Op::Left] + seq![right_loop()])
            == "[->>[-[<]]<]<<<[>]"@,
        strip("[->>[-[<]]<]<<<[>]"@) == "[->>[-[<]]<]<<<[>]"@,
{
    lemma_distribute();
    lemma_pieces();
    reveal_strlit("[->>[-[<]]<]<<<[>]");
    lemma_strip_keeps("[->>[-[<]]<]<<<[>]"@);
    let left = written(seq![left_loop()]);
    assert(left =~= seq!['[', '<', ']']);
    let two = seq![Op::Dec, left_loop()];
    assert(two =~= seq![Op::Dec] + seq![left_loop()]);
    let take = written(seq![take_loop()]);
    assert(take =~= seq!['['] + (seq!['-'] + left) + seq![']']);
    assert(take =~= seq!['[', '-', '[', '<', ']', ']']);
    assert(distance_round() =~= seq![Op::Dec] + seq![Op::Right] + seq![Op::Right] + seq![take_loop()] + seq![
        Op::Left,
    ]);
    let round = written(distance_round());
    assert(round =~= seq!['-'] + seq!['>'] + seq!['>'] + take + seq!['<']);
    let lp = written(seq![distance_loop()]);
    assert(lp =~= seq!['['] + round + seq![']']);
    assert(lp =~= seq!['[', '-', '>', '>', '[', '-', '[', '<', ']', ']', '<', ']']);
    let three = seq![Op::Left, Op::Left, Op::Left];
    assert(three =~= seq![Op::Left] + seq![Op::Left] + seq![Op::Left]);
    assert(written(three) =~= seq!['<', '<', '<']);
    let right = written(seq![right_loop()]);
    assert(right =~= seq!['[', '>', ']']);
    assert(lp + written(three) + right =~= "[->>[-[<]]<]<<<[>]"@);
}

/// The text of `Distance`.
pub proof fn lemma_distance_text(a: usize, b: usize, base: usize, from: usize, indent: usize)
    requires
        base + 6 <= usize::MAX,
    ensures
        strip(distance_text(a, b, base, from, indent)) == written(distance_code(a, b, base, from)),
{
    let b1 = (base + 1) as usize;
    let b3 = (base + 3) as usize;
    let b5 = (base + 5) as usize;
    lemma_wipe_text(base, 6, from, indent);
    lemma_set_text(base, 1, b5, indent);
    lemma_set_text(b1, 1, base, indent);
    lemma_move_text(b3, a, b1, indent);
    lemma_move_text(b5, b, a, indent);
    lemma_distance_loop_text();
    lemma_written_moves(b, b3);
    let g1 = set_text(base, 1, b5, indent);
    let g2 = set_text(b1, 1, base, indent);
    let g3 = move_text(b3, a, b1, indent);
    let g4 = move_text(b5, b, a, indent);
    let g5 = travel(b, b3);
    let g6 = "[->>[-[<]]<]<<<[>]"@;
    let leg0 = wipe_text(base, 6, from, indent);
    let leg1 = leg0 + tabs(indent) + g1;
    let leg2 = leg1 + tabs(indent) + g2;
    let leg3 = leg2 + tabs(indent) + g3;
    let leg4 = leg3 + tabs(indent) + g4;
    let leg5 = leg4 + tabs(indent) + g5;
    let leg6 = leg5 + g6;
    assert(distance_text(a, b, base, from, indent) =~= leg6 + "\n"@);
    lemma_strip_item(leg0, indent, g1);
    lemma_strip_item(leg1, indent, g2);
    lemma_strip_item(leg2, indent, g3);
    lemma_strip_item(leg3, indent, g4);
    lemma_strip_item(leg4, indent, g5);
    lemma_strip_add(leg5, g6);
    lemma_strip_line(leg6);
    let c0 = wipe_code(base, 6, from);
    let c1 = set_code(base, 1, b5);
    let c2 = set_code(b1, 1, base);
    let c3 = move_code(b3, a, b1);
    let c4 = move_code(b5, b, a);
    let c5 = moves(b, b3);
    let c6 = seq![distance_loop()] + seq![Op::Left, Op::Left, Op::Left] + seq![right_loop()];
    assert(distance_code(a, b, base, from) =~= c0 + c1 + c2 + c3 + c4 + c5 + c6);
    lemma_written_add(c0, c1);
    lemma_written_add(c0 + c1, c2);
    lemma_written_add(c0 + c1 + c2, c3);
    lemma_written_add(c0 + c1 + c2 + c3, c4);
    lemma_written_add(c0 + c1 + c2 + c3 + c4, c5);
    lemma_written_add(c0 + c1 + c2 + c3 + c4 + c5, c6);
}


/// The text of an instruction that ends with one operation under the
/// head.
pub proof fn lemma_touch_text(cell: usize, from: usize, indent: usize, sign: Seq<char>, op: Op, c: char)
    requires
        strip(sign) == seq![c],
        written(seq![op]) == seq![c],
    ensures
        strip(tabs(indent) + travel(from, cell) + sign + "\n"@) == written(moves(from, cell) + seq![op]),
{
    lemma_written_moves(from, cell);
    let leg1 = tabs(indent) + travel(from, cell);
    let leg2 = leg1 + sign;
    lemma_strip_first(indent, travel(from, cell));
    lemma_strip_add(leg1, sign);
    lemma_strip_line(leg2);
    lemma_written_add(moves(from, cell), seq![op]);
}

/// What closes a loop is stripped to the closing bracket.
pub proof fn lemma_closing_text(indent: usize)
    ensures
        strip(BFBuilder::closing(indent)) == seq![']'],
{
    lemma_pieces();
    if indent != 0 {
        lemma_strip_first((indent - 1) as usize, "]"@);
    }
}

/// **The emitted text is the program.** The text that a valid instruction
/// emits, stripped of layout and remarks, is the text of the program that
/// the coherence laws speak of.
pub proof fn lemma_instr_text(i: Step, g: GeneratorModel, limit: int)
    requires
        instr_valid(i, limit),
        limit <= usize::MAX,
    ensures
        strip(instr_text(i, g)) == written(step_code(i, g.cell)),
    decreases i, 0nat,
{
    lemma_pieces();
    match i {
        Step::Goto(x) => {
            lemma_written_moves(g.cell, x.cell);
        },
        Step::Clear(x) => {
            lemma_clear_text(x.cell, g.cell, g.indent);
        },
        Step::SetCell(x) => {
            lemma_set_text(x.cell, x.value, g.cell, g.indent);
        },
        Step::Add(x) => {
            lemma_fold_text(x.a, x.b, true, g.cell, g.indent);
        },
        Step::Sub(x) => {
            lemma_fold_text(x.a, x.b, false, g.cell, g.indent);
        },
        Step::Move(x) => {
            lemma_move_text(x.a, x.b, g.cell, g.indent);
        },
        Step::BoolNegate(x) => {
            lemma_negate_text(x.a, x.tmp, g.cell, g.indent);
        },
        Step::Copy(x) => {
            lemma_copy_text(x.a, x.tmp, x.b, g.cell, g.indent);
        },
        Step::Mul(x) => {
            lemma_mul_text(x.a, x.b, x.block->0, g.cell, g.indent);
        },
        Step::Div(x) => {
            lemma_div_text(x.a, x.b, x.block->0, g.cell, g.indent);
        },
        Step::Distance(x) => {
            lemma_distance_text(x.a, x.b, x.block->0, g.cell, g.indent);
        },
        Step::Input(x) => {
            lemma_touch_text(x.cell, g.cell, g.indent, ","@, Op::Read, ',');
        },
        Step::Output(x) => {
            lemma_touch_text(x.cell, g.cell, g.indent, "."@, Op::Write, '.');
        },
        Step::Command(x) => {
            lemma_touch_text(x.cell, g.cell, g.indent, "@"@, Op::Host, '@');
        },
        Step::If(condition, body) => {
            lemma_guarded_text(condition, body, true, g, limit);
        },
        Step::While(condition, body) => {
            lemma_guarded_text(condition, body, false, g, limit);
        },
    }
}

/// The text of an `If` or a `While`.
#[verifier::rlimit(40)]
pub proof fn lemma_guarded_text(condition: usize, body: Seq<Step>, once: bool, g: GeneratorModel, limit: int)
    requires
        block_valid(body, limit),
        limit <= usize::MAX,
    ensures
        once ==> strip(if_text(condition, body, g)) == written(
            moves(g.cell, condition) + seq![Op::Loop(if_round(condition, body))],
        ),
        !once ==> strip(while_text(condition, body, g)) == written(
            moves(g.cell, condition) + seq![Op::Loop(while_round(condition, body))],
        ),
    decreases body, body.len() + 1,
{
    lemma_pieces();
    let n = body.len() as int;
    let exit = prefix_exit(body, n, condition);
    lemma_block_text(body, n, g.at(condition), limit);
    lemma_written_moves(g.cell, condition);
    lemma_written_moves(exit, condition);
    lemma_clear_text(condition, condition, g.indent);
    lemma_closing_text(g.indent);
    let t1 = travel(g.cell, condition);
    let t2 = "["@;
    let t3 = prefix_text(body, n, g.at(condition));
    let t4 = travel(exit, condition);
    let t5 = clear_text(condition, condition, g.indent);
    let t6 = BFBuilder::closing(g.indent);
    let leg1 = tabs(g.indent) + t1;
    let leg2 = leg1 + tabs(g.indent) + t2;
    let leg3 = leg2 + t3;
    let leg4 = leg3 + tabs(g.indent) + t4;
    lemma_strip_first(g.indent, t1);
    lemma_strip_item(leg1, g.indent, t2);
    lemma_strip_add(leg2, t3);
    lemma_strip_item(leg3, g.indent, t4);
    let inner = block_code(body, n, condition);
    let back = moves(exit, condition);
    lemma_written_add(inner, back);
    if once {
        let leg5 = leg4 + tabs(g.indent) + t5;
        let leg6 = leg5 + t6;
        assert(if_text(condition, body, g) =~= leg6 + "\n"@);
        lemma_strip_item(leg4, g.indent, t5);
        lemma_strip_add(leg5, t6);
        lemma_strip_line(leg6);
        let clear = clear_code(condition, condition);
        lemma_written_add(inner + back, clear);
        lemma_written_loop(if_round(condition, body));
        lemma_written_add(moves(g.cell, condition), seq![Op::Loop(if_round(condition, body))]);
        assert(strip(if_text(condition, body, g)) =~= t1 + (seq!['['] + written(if_round(condition, body))
            + seq![']']));
    } else {
        let leg5 = leg4 + t6;
        assert(while_text(condition, body, g) =~= leg5 + "\n"@);
        lemma_strip_add(leg4, t6);
        lemma_strip_line(leg5);
        lemma_written_loop(while_round(condition, body));
        lemma_written_add(moves(g.cell, condition), seq![Op::Loop(while_round(condition, body))]);
        assert(strip(while_text(condition, body, g)) =~= t1 + (seq!['['] + written(
            while_round(condition, body),
        ) + seq![']']));
    }
}

/// The text of the first instructions of a valid block.
pub proof fn lemma_block_text(s: Seq<Step>, k: int, g: GeneratorModel, limit: int)
    requires
        block_valid(s, limit),
        limit <= usize::MAX,
        0 <= k <= s.len(),
    ensures
        strip(prefix_text(s, k, g)) == written(block_code(s, k, g.cell)),
    decreases s, k,
{
    if k > 0 {
        lemma_block_text(s, k - 1, g, limit);
        let at = g.at(prefix_exit(s, k - 1, g.cell));
        lemma_instr_text(s[k - 1], at, limit);
        lemma_strip_add(prefix_text(s, k - 1, g), instr_text(s[k - 1], at));
        lemma_written_add(block_code(s, k - 1, g.cell), step_code(s[k - 1], prefix_exit(s, k - 1, g.cell)));
    } else {
        assert(written(block_code(s, k, g.cell)) =~= Seq::<char>::empty());
    }
}

} // verus!
