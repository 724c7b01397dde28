//! The line transducer: the stateful engine that decides, per line, what
//! bytes to emit.

use vstd::prelude::*;
use crate::config::{CatOptions, Config, NumberingMode};
use crate::escape::{spec_rewrite, rewrite_line, push_all};
use crate::lines::{spec_lines, spec_concat, seq_views, split_lines, lemma_lines_count,
    lemma_lines_nonempty};
use crate::number::{spec_number_field, number_field};

verus! {

/// The state the transducer carries across lines and across input
/// streams: the next line number and whether the previous considered
/// line was blank.
pub struct TransducerState {
    /// The number the next numbered line will receive.
    pub line_number: u64,
    /// Whether the previously considered line was blank; meaningful only
    /// while squeeze-blank is active.
    pub was_blank: bool,
}

/// The mathematical view of the transducer state, with an unbounded
/// line counter.
pub struct StateModel {
    pub line_number: nat,
    pub was_blank: bool,
}

impl View for TransducerState {
    type V = StateModel;

    open spec fn view(&self) -> StateModel {
        StateModel { line_number: self.line_number as nat, was_blank: self.was_blank }
    }
}

/// The state at the start of an invocation: the first line is line one,
/// and no blank line precedes it.
pub open spec fn init_state() -> StateModel {
    StateModel { line_number: 1, was_blank: false }
}

impl TransducerState {
    /// The state at the start of an invocation.
    pub fn new() -> (s: TransducerState)
        ensures
            s@ == init_state(),
    {
        TransducerState { line_number: 1, was_blank: false }
    }
}

/// A line is blank when its only content is the line-feed delimiter.
pub open spec fn spec_is_blank(line: Seq<u8>) -> bool {
    line.len() > 0 && line[0] == 10
}

/// Whether this line receives a numbering prefix.
pub open spec fn spec_numbered(c: Config, line: Seq<u8>) -> bool {
    c.mode == NumberingMode::All || (c.mode == NumberingMode::NonEmpty && !spec_is_blank(line))
}

/// Whether this line is discarded entirely: squeeze-blank is active, the
/// previous considered line was blank, and so is this one.
pub open spec fn spec_skip(c: Config, st: StateModel, line: Seq<u8>) -> bool {
    c.squeeze && st.was_blank && spec_is_blank(line)
}

/// The line with the marker inserted immediately before its trailing
/// delimiter; a line without one is unchanged.
pub open spec fn spec_insert_marker(line: Seq<u8>, marker: Seq<u8>) -> Seq<u8> {
    if line.len() > 0 && line.last() == 10 {
        line.drop_last() + marker + seq![10u8]
    } else {
        line
    }
}

/// The line after end-marker insertion, if a marker is configured.
pub open spec fn spec_marked(c: Config, line: Seq<u8>) -> Seq<u8> {
    match c.end {
        Option::Some(m) => spec_insert_marker(line, m),
        Option::None => line,
    }
}

/// The body of an emitted line: after marker insertion, the line goes
/// through the byte-by-byte rewrite only when an end marker is configured
/// or show-nonprinting is enabled; otherwise its raw bytes are kept.
pub open spec fn spec_line_body(c: Config, line: Seq<u8>) -> Seq<u8> {
    if c.end is Some || c.show_nonprinting {
        spec_rewrite(c, spec_marked(c, line))
    } else {
        spec_marked(c, line)
    }
}

/// Everything an emitted line contributes to the output: the numbering
/// prefix, when the line is numbered, followed by the line body.
pub open spec fn spec_line_output(c: Config, st: StateModel, line: Seq<u8>) -> Seq<u8> {
    if spec_numbered(c, line) {
        spec_number_field(st.line_number) + spec_line_body(c, line)
    } else {
        spec_line_body(c, line)
    }
}

/// The state after considering one line: a skipped line changes nothing;
/// otherwise the counter advances exactly when the line was numbered, and
/// the blank flag records this line's blankness while squeezing.
pub open spec fn spec_step_state(c: Config, st: StateModel, line: Seq<u8>) -> StateModel {
    if spec_skip(c, st, line) {
        st
    } else {
        StateModel {
            line_number: if spec_numbered(c, line) {
                st.line_number + 1
            } else {
                st.line_number
            },
            was_blank: if c.squeeze {
                spec_is_blank(line)
            } else {
                st.was_blank
            },
        }
    }
}

/// What one line contributes to the output: nothing when skipped.
pub open spec fn spec_step_output(c: Config, st: StateModel, line: Seq<u8>) -> Seq<u8> {
    if spec_skip(c, st, line) {
        Seq::empty()
    } else {
        spec_line_output(c, st, line)
    }
}

/// Fold the transducer over a sequence of lines: the final state and the
/// concatenated output.
pub open spec fn spec_run(c: Config, st: StateModel, ls: Seq<Seq<u8>>) -> (StateModel, Seq<u8>)
    decreases ls.len(),
{
    if ls.len() == 0 {
        (st, Seq::empty())
    } else {
        let st1 = spec_step_state(c, st, ls[0]);
        let r = spec_run(c, st1, ls.drop_first());
        (r.0, spec_step_output(c, st, ls[0]) + r.1)
    }
}

/// Fold the transducer over a sequence of input streams, splitting each
/// into lines; the state persists across stream boundaries.
pub open spec fn spec_run_inputs(c: Config, st: StateModel, inputs: Seq<Seq<u8>>) -> (
    StateModel,
    Seq<u8>,
)
    decreases inputs.len(),
{
    if inputs.len() == 0 {
        (st, Seq::empty())
    } else {
        let r1 = spec_run(c, st, spec_lines(inputs[0]));
        let r2 = spec_run_inputs(c, r1.0, inputs.drop_first());
        (r2.0, r1.1 + r2.1)
    }
}

/// The whole output of one invocation.
pub open spec fn spec_output(c: Config, inputs: Seq<Seq<u8>>) -> Seq<u8> {
    spec_run_inputs(c, init_state(), inputs).1
}

/// The total number of bytes over a sequence of input streams.
pub open spec fn spec_total_len(inputs: Seq<Seq<u8>>) -> nat
    decreases inputs.len(),
{
    if inputs.len() == 0 {
        0
    } else {
        spec_total_len(inputs.drop_last()) + inputs.last().len()
    }
}

/// A line is blank exactly when its first byte is the delimiter.
pub fn is_blank(line: &[u8]) -> (r: bool)
    requires
        line@.len() > 0,
    ensures
        r == spec_is_blank(line@),
{
    line[0] == 10
}

/// Insert the bytes of `item` immediately before the last byte of `line`.
pub fn append_str(line: &mut Vec<u8>, item: &[u8])
    requires
        old(line)@.len() > 0,
    ensures
        final(line)@ == old(line)@.drop_last() + item@ + seq![old(line)@.last()],
{
    let last = match line.pop() {
        Option::Some(b) => b,
        Option::None => 0,
    };
    let ghost kept = old(line)@.drop_last();
    let mut k: usize = 0;
    while k < item.len()
        invariant
            k <= item@.len(),
            line@ == kept + item@.take(k as int),
        decreases item@.len() - k,
    {
        line.push(item[k]);
        proof {
            assert(kept + item@.take(k as int) + seq![item@[k as int]] =~= kept + item@.take(
                k as int + 1,
            ));
        }
        k = k + 1;
    }
    line.push(last);
    proof {
        assert(item@.take(item@.len() as int) =~= item@);
        assert((kept + item@).push(old(line)@.last()) =~= kept + item@ + seq![old(line)@.last()]);
    }
}

/// A fresh copy of a byte vector.
fn copy_bytes(v: &Vec<u8>) -> (r: Vec<u8>)
    ensures
        r@ == v@,
{
    let mut r: Vec<u8> = Vec::new();
    let mut k: usize = 0;
    while k < v.len()
        invariant
            k <= v@.len(),
            r@ == v@.take(k as int),
        decreases v@.len() - k,
    {
        r.push(v[k]);
        proof {
            assert(v@.take(k as int).push(v@[k as int]) =~= v@.take(k as int + 1));
        }
        k = k + 1;
    }
    proof {
        assert(v@.take(v@.len() as int) =~= v@);
    }
    r
}

/// Consider one line: discard it, or emit its numbering prefix and its
/// body, updating the carried state.
pub fn process_line(
    options: &CatOptions,
    state: &mut TransducerState,
    line: &Vec<u8>,
    out: &mut Vec<u8>,
)
    requires
        line@.len() > 0,
        options@.mode != NumberingMode::Off ==> old(state).line_number < u64::MAX,
    ensures
        final(state)@ == spec_step_state(options@, old(state)@, line@),
        final(out)@ == old(out)@ + spec_step_output(options@, old(state)@, line@),
{
    let blank = is_blank(line.as_slice());
    if options.squeeze_blank {
        if state.was_blank && blank {
            proof {
                assert(old(out)@ + spec_step_output(options@, old(state)@, line@) =~= old(out)@);
            }
            return ;
        }
        state.was_blank = blank;
    }
    let numbered = match options.numbering_mode {
        NumberingMode::All => true,
        NumberingMode::NonEmpty => !blank,
        NumberingMode::Off => false,
    };
    if numbered {
        let mut field = number_field(state.line_number);
        out.append(&mut field);
        state.line_number = state.line_number + 1;
    }
    let mut work = copy_bytes(line);
    if let Option::Some(marker) = &options.end_char {
        if work[work.len() - 1] == 10 {
            append_str(&mut work, marker.as_slice());
            proof {
                assert(work@ =~= spec_marked(options@, line@));
            }
        }
    }
    proof {
        assert(work@ == spec_marked(options@, line@));
    }
    if options.end_char.is_some() || options.show_nonprinting {
        rewrite_line(options, &work, out);
    } else {
        out.append(&mut work);
    }
    proof {
        assert(out@ =~= old(out)@ + spec_step_output(options@, old(state)@, line@));
    }
}

/// Considering a line raises the line counter by at most one.
pub proof fn lemma_run_line_number_bound(c: Config, st: StateModel, ls: Seq<Seq<u8>>)
    ensures
        spec_run(c, st, ls).0.line_number <= st.line_number + ls.len(),
    decreases ls.len(),
{
    if ls.len() > 0 {
        lemma_run_line_number_bound(c, spec_step_state(c, st, ls[0]), ls.drop_first());
    }
}

/// Taking one more stream adds exactly its length to the total.
pub proof fn lemma_total_len_take_succ(inputs: Seq<Seq<u8>>, i: int)
    requires
        0 <= i < inputs.len(),
    ensures
        spec_total_len(inputs.take(i + 1)) == spec_total_len(inputs.take(i)) + inputs[i].len(),
{
    assert(inputs.take(i + 1).drop_last() =~= inputs.take(i));
    assert(inputs.take(i + 1).last() == inputs[i]);
}

/// A prefix of the streams holds no more bytes than all of them.
pub proof fn lemma_total_len_take_le(inputs: Seq<Seq<u8>>, i: int)
    requires
        0 <= i <= inputs.len(),
    ensures
        spec_total_len(inputs.take(i)) <= spec_total_len(inputs),
    decreases inputs.len() - i,
{
    if i == inputs.len() {
        assert(inputs.take(i) =~= inputs);
    } else {
        lemma_total_len_take_succ(inputs, i);
        lemma_total_len_take_le(inputs, i + 1);
    }
}

/// Run the transducer over one input stream, appending its contribution
/// to `out`; the carried state persists into the next stream.
pub fn process_input(
    options: &CatOptions,
    state: &mut TransducerState,
    input: &Vec<u8>,
    out: &mut Vec<u8>,
)
    requires
        options@.mode != NumberingMode::Off ==> old(state).line_number as int + input@.len()
            <= u64::MAX as int,
    ensures
        final(state)@ == spec_run(options@, old(state)@, spec_lines(input@)).0,
        final(out)@ == old(out)@ + spec_run(options@, old(state)@, spec_lines(input@)).1,
{
    let lines = split_lines(input);
    let ghost ls = spec_lines(input@);
    let ghost st0 = state@;
    let ghost out0 = out@;
    proof {
        lemma_lines_count(input@);
        lemma_lines_nonempty(input@);
        assert(ls.skip(0) =~= ls);
        assert(out0 + spec_run(options@, st0, ls).1 =~= out@ + spec_run(options@, state@, ls).1);
    }
    let mut j: usize = 0;
    while j < lines.len()
        invariant
            j <= lines@.len(),
            seq_views(lines@) == ls,
            ls.len() <= input@.len(),
            forall|k: int| 0 <= k < ls.len() ==> (#[trigger] ls[k]).len() > 0,
            options@.mode != NumberingMode::Off ==> st0.line_number + input@.len() <= u64::MAX,
            state@.line_number <= st0.line_number + j,
            spec_run(options@, st0, ls).0 == spec_run(options@, state@, ls.skip(j as int)).0,
            out0 + spec_run(options@, st0, ls).1 == out@ + spec_run(
                options@,
                state@,
                ls.skip(j as int),
            ).1,
        decreases lines@.len() - j,
    {
        let ghost st_pre = state@;
        let ghost out_pre = out@;
        proof {
            assert(lines@[j as int]@ == ls[j as int]);
            assert(ls[j as int].len() > 0);
        }
        process_line(options, state, &lines[j], out);
        proof {
            let tail = ls.skip(j as int);
            assert(tail[0] == ls[j as int]);
            assert(tail.drop_first() =~= ls.skip(j as int + 1));
            assert(state@.line_number <= st_pre.line_number + 1);
            assert(spec_run(options@, st_pre, tail).0 == spec_run(
                options@,
                state@,
                ls.skip(j as int + 1),
            ).0);
            assert(out0 + spec_run(options@, st0, ls).1 =~= out@ + spec_run(
                options@,
                state@,
                ls.skip(j as int + 1),
            ).1);
        }
        j = j + 1;
    }
    proof {
        assert(ls.skip(ls.len() as int) =~= Seq::<Seq<u8>>::empty());
        assert(out@ + Seq::<u8>::empty() =~= out@);
    }
}

/// Copy each stream to the output unchanged, in order: the whole-stream
/// fast path, with no line parsing at all.
pub fn fast_print(inputs: &Vec<Vec<u8>>) -> (out: Vec<u8>)
    ensures
        out@ == spec_concat(seq_views(inputs@)),
{
    let ghost vs = seq_views(inputs@);
    let mut out: Vec<u8> = Vec::new();
    let mut i: usize = 0;
    proof {
        assert(vs.skip(0) =~= vs);
        assert(out@ + spec_concat(vs) =~= spec_concat(vs));
    }
    while i < inputs.len()
        invariant
            i <= inputs@.len(),
            vs == seq_views(inputs@),
            spec_concat(vs) == out@ + spec_concat(vs.skip(i as int)),
        decreases inputs@.len() - i,
    {
        let ghost out_pre = out@;
        push_all(&mut out, inputs[i].as_slice());
        proof {
            let tail = vs.skip(i as int);
            assert(tail[0] == vs[i as int]);
            assert(vs[i as int] == inputs@[i as int]@);
            assert(tail.drop_first() =~= vs.skip(i as int + 1));
            assert(out_pre + spec_concat(tail) =~= out@ + spec_concat(vs.skip(i as int + 1)));
        }
        i = i + 1;
    }
    proof {
        assert(vs.skip(vs.len() as int) =~= Seq::<Seq<u8>>::empty());
        assert(out@ + Seq::<u8>::empty() =~= out@);
    }
    out
}

/// Concatenate the input streams to one output, applying the configured
/// transformations: the whole invocation. The line counter and the blank
/// flag persist across stream boundaries. With numbering active the
/// counter must fit the machine word, hence the bound on the total input
/// size.
pub fn concat(options: &CatOptions, inputs: &Vec<Vec<u8>>) -> (out: Vec<u8>)
    requires
        options@.mode != NumberingMode::Off ==> spec_total_len(seq_views(inputs@)) < u64::MAX,
    ensures
        out@ == spec_output(options@, seq_views(inputs@)),
{
    let ghost vs = seq_views(inputs@);
    if options.is_plain() {
        let out = fast_print(inputs);
        proof {
            crate::laws::lemma_plain_output(options@, vs);
        }
        out
    } else {
        let mut out: Vec<u8> = Vec::new();
        let mut state = TransducerState::new();
        let mut i: usize = 0;
        proof {
            assert(vs.skip(0) =~= vs);
            assert(vs.take(0) =~= Seq::<Seq<u8>>::empty());
            assert(out@ + spec_run_inputs(options@, init_state(), vs).1 =~= spec_run_inputs(
                options@,
                init_state(),
                vs,
            ).1);
        }
        while i < inputs.len()
            invariant
                i <= inputs@.len(),
                vs == seq_views(inputs@),
                options@.mode != NumberingMode::Off ==> spec_total_len(vs) < u64::MAX,
                state@.line_number <= 1 + spec_total_len(vs.take(i as int)),
                spec_run_inputs(options@, init_state(), vs).0 == spec_run_inputs(
                    options@,
                    state@,
                    vs.skip(i as int),
                ).0,
                spec_run_inputs(options@, init_state(), vs).1 == out@ + spec_run_inputs(
                    options@,
                    state@,
                    vs.skip(i as int),
                ).1,
            decreases inputs@.len() - i,
        {
            proof {
                assert(inputs@[i as int]@ == vs[i as int]);
                lemma_total_len_take_succ(vs, i as int);
                lemma_total_len_take_le(vs, i as int + 1);
            }
            let ghost st_pre = state@;
            let ghost out_pre = out@;
            process_input(options, &mut state, &inputs[i], &mut out);
            proof {
                lemma_run_line_number_bound(options@, st_pre, spec_lines(vs[i as int]));
                lemma_lines_count(vs[i as int]);
                let tail = vs.skip(i as int);
                assert(tail[0] == vs[i as int]);
                assert(tail.drop_first() =~= vs.skip(i as int + 1));
                assert(spec_run_inputs(options@, init_state(), vs).1 =~= out@ + spec_run_inputs(
                    options@,
                    state@,
                    vs.skip(i as int + 1),
                ).1);
            }
            i = i + 1;
        }
        proof {
            assert(vs.skip(vs.len() as int) =~= Seq::<Seq<u8>>::empty());
            assert(out@ + Seq::<u8>::empty() =~= out@);
        }
        out
    }
}

} // verus!
