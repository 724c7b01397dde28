//! Properties of the transducer, each stated once over all inputs and
//! proved.

use vstd::prelude::*;
use crate::config::{Config, NumberingMode, plain_config};
use crate::escape::{spec_escape_byte, spec_emit_byte, spec_rewrite};
use crate::lines::{spec_lines, spec_concat, lemma_lines_concat};
use crate::number::spec_number_field;
use crate::transducer::{StateModel, init_state, spec_is_blank, spec_numbered, spec_skip,
    spec_marked, spec_line_body, spec_step_state, spec_step_output, spec_run, spec_run_inputs,
    spec_output};

verus! {

/// Under a plain configuration a line passes through unchanged and the
/// state does not move.
pub proof fn lemma_step_plain(c: Config, st: StateModel, line: Seq<u8>)
    requires
        plain_config(c),
    ensures
        spec_step_output(c, st, line) == line,
        spec_step_state(c, st, line) == st,
{
}

/// Under a plain configuration a run over lines emits exactly their
/// concatenation.
pub proof fn lemma_run_plain(c: Config, st: StateModel, ls: Seq<Seq<u8>>)
    requires
        plain_config(c),
    ensures
        spec_run(c, st, ls).0 == st,
        spec_run(c, st, ls).1 == spec_concat(ls),
    decreases ls.len(),
{
    if ls.len() == 0 {
    } else {
        lemma_step_plain(c, st, ls[0]);
        lemma_run_plain(c, st, ls.drop_first());
    }
}

/// Under a plain configuration the run over whole streams emits exactly
/// their concatenation.
pub proof fn lemma_run_inputs_plain(c: Config, st: StateModel, inputs: Seq<Seq<u8>>)
    requires
        plain_config(c),
    ensures
        spec_run_inputs(c, st, inputs).0 == st,
        spec_run_inputs(c, st, inputs).1 == spec_concat(inputs),
    decreases inputs.len(),
{
    if inputs.len() == 0 {
    } else {
        lemma_run_plain(c, st, spec_lines(inputs[0]));
        lemma_lines_concat(inputs[0]);
        lemma_run_inputs_plain(c, st, inputs.drop_first());
    }
}

/// With no transformation configured, the output bytes equal the exact
/// concatenation of the input bytes, in order: the whole-stream copy path
/// and the line-by-line path agree.
pub proof fn lemma_plain_output(c: Config, inputs: Seq<Seq<u8>>)
    requires
        plain_config(c),
    ensures
        spec_output(c, inputs) == spec_concat(inputs),
{
    lemma_run_inputs_plain(c, init_state(), inputs);
}

/// Numbering: a numbered line receives the prefix holding the current
/// counter value, and the counter advances exactly when a prefix was
/// emitted. In mode `All` every considered line is numbered; in mode
/// `NonEmpty` exactly the non-blank ones; in mode `Off` none.
pub proof fn lemma_numbering_step(c: Config, st: StateModel, line: Seq<u8>)
    requires
        !spec_skip(c, st, line),
    ensures
        spec_numbered(c, line) ==> spec_step_output(c, st, line) == spec_number_field(
            st.line_number,
        ) + spec_line_body(c, line),
        spec_numbered(c, line) ==> spec_step_state(c, st, line).line_number == st.line_number + 1,
        !spec_numbered(c, line) ==> spec_step_output(c, st, line) == spec_line_body(c, line),
        !spec_numbered(c, line) ==> spec_step_state(c, st, line).line_number == st.line_number,
        c.mode == NumberingMode::All ==> spec_numbered(c, line),
        c.mode == NumberingMode::NonEmpty ==> (spec_numbered(c, line) <==> !spec_is_blank(line)),
        c.mode == NumberingMode::Off ==> !spec_numbered(c, line),
{
}

/// The output of a fully numbered run: the first line carries `n0`, the
/// next `n0 + 1`, and so on.
pub open spec fn spec_numbered_run(c: Config, n0: nat, ls: Seq<Seq<u8>>) -> Seq<u8>
    decreases ls.len(),
{
    if ls.len() == 0 {
        Seq::empty()
    } else {
        spec_number_field(n0) + spec_line_body(c, ls[0]) + spec_numbered_run(
            c,
            n0 + 1,
            ls.drop_first(),
        )
    }
}

/// Numbering over a whole run: in mode `All` without squeezing, the Nth
/// considered line — counting from 1 and across stream boundaries, since
/// the state persists — receives number `st.line_number + N - 1`, and the
/// counter leaves the run advanced by exactly the number of lines.
pub proof fn lemma_numbering_all(c: Config, st: StateModel, ls: Seq<Seq<u8>>)
    requires
        c.mode == NumberingMode::All,
        !c.squeeze,
    ensures
        spec_run(c, st, ls).1 == spec_numbered_run(c, st.line_number, ls),
        spec_run(c, st, ls).0.line_number == st.line_number + ls.len(),
    decreases ls.len(),
{
    if ls.len() == 0 {
    } else {
        let st1 = spec_step_state(c, st, ls[0]);
        lemma_numbering_all(c, st1, ls.drop_first());
        assert(spec_number_field(st.line_number) + spec_line_body(c, ls[0]) + spec_numbered_run(
            c,
            st.line_number + 1,
            ls.drop_first(),
        ) =~= (spec_number_field(st.line_number) + spec_line_body(c, ls[0])) + spec_numbered_run(
            c,
            st.line_number + 1,
            ls.drop_first(),
        ));
    }
}

/// A run of `k` blank lines, each holding only the delimiter.
pub open spec fn blank_lines(k: nat) -> Seq<Seq<u8>> {
    Seq::new(k, |i: int| seq![10u8])
}

/// While squeezing, blank lines that follow a blank line are discarded
/// entirely: they emit nothing and leave the state untouched.
pub proof fn lemma_squeeze_absorbs(c: Config, st: StateModel, k: nat)
    requires
        c.squeeze,
        st.was_blank,
    ensures
        spec_run(c, st, blank_lines(k)).0 == st,
        spec_run(c, st, blank_lines(k)).1 == Seq::<u8>::empty(),
    decreases k,
{
    if k == 0 {
    } else {
        let ls = blank_lines(k);
        assert(ls[0] == seq![10u8]);
        assert(spec_is_blank(ls[0]));
        assert(ls.drop_first() =~= blank_lines((k - 1) as nat));
        lemma_squeeze_absorbs(c, st, (k - 1) as nat);
        assert(Seq::<u8>::empty() + Seq::<u8>::empty() =~= Seq::<u8>::empty());
    }
}

/// Squeeze-blank: a run of consecutive blank lines, however long,
/// produces the same output and the same final state as a single blank
/// line.
pub proof fn lemma_squeeze_collapse(c: Config, st: StateModel, k: nat)
    requires
        c.squeeze,
        k >= 1,
    ensures
        spec_run(c, st, blank_lines(k)).0 == spec_run(c, st, blank_lines(1)).0,
        spec_run(c, st, blank_lines(k)).1 == spec_run(c, st, blank_lines(1)).1,
{
    if st.was_blank {
        lemma_squeeze_absorbs(c, st, k);
        lemma_squeeze_absorbs(c, st, 1);
    } else {
        let ls = blank_lines(k);
        assert(ls[0] == seq![10u8]);
        assert(spec_is_blank(ls[0]));
        let st1 = spec_step_state(c, st, ls[0]);
        assert(st1.was_blank);
        assert(ls.drop_first() =~= blank_lines((k - 1) as nat));
        lemma_squeeze_absorbs(c, st1, (k - 1) as nat);
        let one = blank_lines(1);
        assert(one[0] == seq![10u8]);
        assert(one.drop_first() =~= blank_lines(0));
        lemma_squeeze_absorbs(c, st1, 0);
        let o1 = spec_step_output(c, st, ls[0]);
        assert(o1 + Seq::<u8>::empty() =~= o1);
    }
}

/// Squeeze-blank across a boundary: once the previous considered line was
/// blank — whether in this stream or in an earlier one, since the state
/// persists — any leading run of blank lines is discarded whole.
pub proof fn lemma_squeeze_blank_prefix(c: Config, st: StateModel, k: nat, rest: Seq<Seq<u8>>)
    requires
        c.squeeze,
        st.was_blank,
    ensures
        spec_run(c, st, blank_lines(k) + rest).0 == spec_run(c, st, rest).0,
        spec_run(c, st, blank_lines(k) + rest).1 == spec_run(c, st, rest).1,
    decreases k,
{
    if k == 0 {
        assert(blank_lines(0) + rest =~= rest);
    } else {
        let ls = blank_lines(k) + rest;
        assert(ls[0] == seq![10u8]);
        assert(spec_is_blank(ls[0]));
        assert(ls.drop_first() =~= blank_lines((k - 1) as nat) + rest);
        lemma_squeeze_blank_prefix(c, st, (k - 1) as nat, rest);
        assert(Seq::<u8>::empty() + spec_run(c, st, rest).1 =~= spec_run(c, st, rest).1);
    }
}

/// The byte-by-byte rewrite distributes over concatenation.
pub proof fn lemma_rewrite_append(c: Config, a: Seq<u8>, b: Seq<u8>)
    ensures
        spec_rewrite(c, a + b) == spec_rewrite(c, a) + spec_rewrite(c, b),
    decreases b.len(),
{
    if b.len() == 0 {
        assert(a + b =~= a);
        assert(spec_rewrite(c, a) + spec_rewrite(c, b) =~= spec_rewrite(c, a));
    } else {
        assert((a + b).drop_last() =~= a + b.drop_last());
        assert((a + b).last() == b.last());
        lemma_rewrite_append(c, a, b.drop_last());
        assert(spec_rewrite(c, a) + spec_rewrite(c, b.drop_last()) + spec_emit_byte(c, b.last())
            =~= spec_rewrite(c, a) + (spec_rewrite(c, b.drop_last()) + spec_emit_byte(
            c,
            b.last(),
        )));
    }
}

/// Bytes that the rewrite keeps as themselves leave a sequence unchanged.
pub proof fn lemma_rewrite_plain_bytes(c: Config, s: Seq<u8>)
    requires
        forall|i: int| 0 <= i < s.len() ==> #[trigger] spec_emit_byte(c, s[i]) == seq![s[i]],
    ensures
        spec_rewrite(c, s) == s,
    decreases s.len(),
{
    if s.len() == 0 {
        assert(spec_rewrite(c, s) =~= s);
    } else {
        lemma_rewrite_plain_bytes(c, s.drop_last());
        assert(spec_emit_byte(c, s[s.len() - 1]) == seq![s[s.len() - 1]]);
        assert(s.drop_last() + seq![s.last()] =~= s);
    }
}

/// The rewrite keeps the line-feed delimiter.
pub proof fn lemma_emit_line_feed(c: Config)
    ensures
        spec_emit_byte(c, 10) == seq![10u8],
{
}

/// End marker, delimited line: the marker stands immediately before the
/// trailing delimiter, inside the byte-by-byte rewrite.
pub proof fn lemma_end_marker_delimited(c: Config, m: Seq<u8>, line: Seq<u8>)
    requires
        c.end == Option::Some(m),
        line.len() > 0,
        line.last() == 10,
    ensures
        spec_line_body(c, line) == spec_rewrite(c, line.drop_last() + m) + seq![10u8],
{
    assert(spec_marked(c, line) == line.drop_last() + m + seq![10u8]);
    lemma_rewrite_append(c, line.drop_last() + m, seq![10u8]);
    assert(seq![10u8].drop_last() =~= Seq::<u8>::empty());
    assert(seq![10u8].last() == 10u8);
    assert(spec_rewrite(c, seq![10u8]) == spec_rewrite(c, Seq::<u8>::empty()) + spec_emit_byte(
        c,
        10,
    ));
    assert(Seq::<u8>::empty() + seq![10u8] =~= seq![10u8]);
}

/// End marker, marker of untouched bytes: the marker string itself
/// appears verbatim immediately before the delimiter.
pub proof fn lemma_end_marker_literal(c: Config, m: Seq<u8>, line: Seq<u8>)
    requires
        c.end == Option::Some(m),
        line.len() > 0,
        line.last() == 10,
        forall|i: int| 0 <= i < m.len() ==> #[trigger] spec_emit_byte(c, m[i]) == seq![m[i]],
    ensures
        spec_line_body(c, line) == spec_rewrite(c, line.drop_last()) + m + seq![10u8],
{
    lemma_end_marker_delimited(c, m, line);
    lemma_rewrite_append(c, line.drop_last(), m);
    lemma_rewrite_plain_bytes(c, m);
    assert(spec_rewrite(c, line.drop_last()) + m + seq![10u8] =~= (spec_rewrite(c, line.drop_last())
        + m) + seq![10u8]);
}

/// End marker, final undelimited line: no marker is inserted.
pub proof fn lemma_end_marker_undelimited(c: Config, line: Seq<u8>)
    requires
        c.end is Some,
        line.len() > 0,
        line.last() != 10,
    ensures
        spec_line_body(c, line) == spec_rewrite(c, line),
{
}

/// Printable ASCII bytes pass through the classification table unchanged.
pub proof fn lemma_escape_printable(b: u8)
    requires
        32 <= b <= 126,
    ensures
        spec_escape_byte(b) == seq![b],
{
}

/// Tab substitution takes priority: with a tab replacement configured,
/// the tab byte always becomes the replacement string, never its escape,
/// whether or not show-nonprinting is also active.
pub proof fn lemma_tab_precedence(c: Config, t: Seq<u8>)
    requires
        c.tab == Option::Some(t),
    ensures
        spec_emit_byte(c, 9) == t,
{
}

} // verus!
