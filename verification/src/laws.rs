//! What holds of every decoding.

use crate::yay0::{
    back_distance, copy_count, copy_run, decode_spec, has_tag, layout_of, lemma_copy_run_len,
    lemma_step_grows, matches_model, next_flag, next_link, next_literal, run, run_hint, start,
    step, Decoded, Layout, Progress, Yay0Error,
};
use vstd::prelude::*;

verus! {

/// Where the later of the two trailing regions starts.
pub open spec fn trailing_offset(lay: Layout) -> nat {
    if lay.link < lay.data {
        lay.data
    } else {
        lay.link
    }
}

/// The part of `buf` that a block starting at `at` can read.
pub open spec fn view_from(buf: Seq<u8>, at: int) -> Seq<u8> {
    buf.subrange(at, buf.len() as int)
}

/// A decoding that ends well leaves exactly the declared number of bytes,
/// never reads backwards, has read inside the buffer whatever it read, and
/// has read a literal if it produced anything from nothing.
pub proof fn lemma_run_end(p: Seq<u8>, lay: Layout, s: Progress)
    requires
        run(p, lay, s) is Ok,
        s.out.len() <= lay.total,
    ensures
        run(p, lay, s)->Ok_0.out.len() == lay.total,
        run(p, lay, s)->Ok_0.literal_bytes >= s.literal_bytes,
        run(p, lay, s)->Ok_0.link_bytes >= s.link_bytes,
        run(p, lay, s)->Ok_0.literal_bytes > s.literal_bytes ==> lay.data + run(
            p,
            lay,
            s,
        )->Ok_0.literal_bytes <= p.len(),
        run(p, lay, s)->Ok_0.link_bytes > s.link_bytes ==> lay.link + run(
            p,
            lay,
            s,
        )->Ok_0.link_bytes <= p.len(),
        s.out.len() == 0 && lay.total > 0 ==> run(p, lay, s)->Ok_0.literal_bytes
            > s.literal_bytes,
    decreases lay.total - s.out.len(),
{
    if s.out.len() < lay.total {
        let n = step(p, lay, s)->Ok_0;
        lemma_step_grows(p, lay, s);
        lemma_run_end(p, lay, n);
    }
}

/// On a buffer cut short, an operation either runs out of input or does
/// what it did on the whole buffer, all its reads lying before the cut.
pub proof fn lemma_step_on_prefix(p: Seq<u8>, cut: int, lay: Layout, s: Progress)
    requires
        0 <= cut <= p.len(),
        step(p, lay, s) is Ok,
    ensures
        step(p.subrange(0, cut), lay, s) == Err::<Progress, Yay0Error>(Yay0Error::TruncatedInput)
            || {
            &&& step(p.subrange(0, cut), lay, s) == step(p, lay, s)
            &&& step(p, lay, s)->Ok_0.literal_bytes > s.literal_bytes ==> lay.data + step(
                p,
                lay,
                s,
            )->Ok_0.literal_bytes <= cut
            &&& step(p, lay, s)->Ok_0.link_bytes > s.link_bytes ==> lay.link + step(
                p,
                lay,
                s,
            )->Ok_0.link_bytes <= cut
        },
{
    let q = p.subrange(0, cut);
    assert(next_flag(q, s) is Some ==> next_flag(q, s) == next_flag(p, s));
    assert(next_literal(q, lay, s) is Some ==> next_literal(q, lay, s) == next_literal(p, lay, s));
    assert(next_link(q, lay, s) is Some ==> next_link(q, lay, s) == next_link(p, lay, s));
}

/// On a buffer cut short, decoding either runs out of input or ends as it
/// did on the whole buffer, all its reads lying before the cut.
pub proof fn lemma_run_on_prefix(p: Seq<u8>, cut: int, lay: Layout, s: Progress)
    requires
        0 <= cut <= p.len(),
        run(p, lay, s) is Ok,
        s.out.len() <= lay.total,
    ensures
        run(p.subrange(0, cut), lay, s) == Err::<Progress, Yay0Error>(Yay0Error::TruncatedInput)
            || {
            &&& run(p.subrange(0, cut), lay, s) == run(p, lay, s)
            &&& run(p, lay, s)->Ok_0.literal_bytes > s.literal_bytes ==> lay.data + run(
                p,
                lay,
                s,
            )->Ok_0.literal_bytes <= cut
            &&& run(p, lay, s)->Ok_0.link_bytes > s.link_bytes ==> lay.link + run(
                p,
                lay,
                s,
            )->Ok_0.link_bytes <= cut
        },
    decreases lay.total - s.out.len(),
{
    if s.out.len() < lay.total {
        let n = step(p, lay, s)->Ok_0;
        lemma_step_grows(p, lay, s);
        lemma_step_on_prefix(p, cut, lay, s);
        if step(p.subrange(0, cut), lay, s) == step(p, lay, s) {
            lemma_run_on_prefix(p, cut, lay, n);
            lemma_run_end(p, lay, n);
        }
    }
}

/// Two results for the same buffer and offset are the same result.
pub proof fn law_same_input_same_result(
    buf: Seq<u8>,
    at: int,
    first: Result<(Vec<u8>, usize), Yay0Error>,
    second: Result<(Vec<u8>, usize), Yay0Error>,
)
    requires
        matches_model(first, decode_spec(buf, at)),
        matches_model(second, decode_spec(buf, at)),
    ensures
        first is Ok <==> second is Ok,
        first is Ok ==> first->Ok_0.0@ == second->Ok_0.0@ && first->Ok_0.1 == second->Ok_0.1,
        first is Err ==> first->Err_0 == second->Err_0,
{
}

/// A block that decodes gives exactly as many bytes as its header declares.
pub proof fn law_exact_length(buf: Seq<u8>, at: int)
    requires
        decode_spec(buf, at) is Ok,
    ensures
        decode_spec(buf, at)->Ok_0.out.len() == layout_of(view_from(buf, at)).total,
{
    let p = view_from(buf, at);
    lemma_run_end(p, layout_of(p), start());
}

/// The consumed size is the later region's offset plus what was read of that
/// region. Where anything was read of it, the consumed size lies within the
/// view; it lies behind the header where that region does.
pub proof fn law_consumed_size(buf: Seq<u8>, at: int)
    requires
        decode_spec(buf, at) is Ok,
    ensures
        ({
            let p = view_from(buf, at);
            let lay = layout_of(p);
            let end = run(p, lay, start())->Ok_0;
            let consumed = decode_spec(buf, at)->Ok_0.consumed;
            &&& lay.link < lay.data ==> consumed == lay.data + end.literal_bytes
            &&& lay.link > lay.data ==> consumed == lay.link + end.link_bytes
            &&& consumed >= trailing_offset(lay)
            &&& consumed > trailing_offset(lay) ==> consumed <= p.len()
            &&& lay.link < lay.data && lay.total > 0 ==> consumed > trailing_offset(lay)
            &&& consumed > trailing_offset(lay) && trailing_offset(lay) >= 16 ==> 16 < consumed
                <= p.len()
        }),
{
    let p = view_from(buf, at);
    lemma_run_end(p, layout_of(p), start());
}

/// A run that starts one place back repeats the last byte: the output is
/// what stood before, followed by `count` copies of its last byte.
pub proof fn law_run_repeats_last_byte(out: Seq<u8>, count: nat)
    requires
        out.len() > 0,
    ensures
        copy_run(out, 0, count) == out + Seq::new(count, |i: int| out.last()),
    decreases count,
{
    if count == 0 {
        assert(out + Seq::new(count, |i: int| out.last()) =~= out);
    } else {
        let next = out.push(out.last());
        law_run_repeats_last_byte(next, (count - 1) as nat);
        assert(next + Seq::new((count - 1) as nat, |i: int| next.last()) =~= out + Seq::new(
            count,
            |i: int| out.last(),
        ));
    }
}

/// A back-reference whose hint is zero takes one literal byte and copies
/// that byte's value plus eighteen bytes; any other takes no literal byte
/// and copies the hint plus two.
pub proof fn law_run_length(p: Seq<u8>, lay: Layout, s: Progress)
    requires
        next_flag(p, s) == Some(false),
        step(p, lay, s) is Ok,
    ensures
        ({
            let code = next_link(p, lay, s)->Some_0;
            let n = step(p, lay, s)->Ok_0;
            &&& next_link(p, lay, s) is Some
            &&& n.link_bytes == s.link_bytes + 2
            &&& run_hint(code) == 0 ==> {
                &&& next_literal(p, lay, s) is Some
                &&& n.literal_bytes == s.literal_bytes + 1
                &&& n.out.len() == s.out.len() + next_literal(p, lay, s)->Some_0 + 18
            }
            &&& run_hint(code) != 0 ==> {
                &&& n.literal_bytes == s.literal_bytes
                &&& n.out.len() == s.out.len() + run_hint(code) + 2
            }
            &&& n.out == copy_run(s.out, back_distance(code), (n.out.len() - s.out.len()) as nat)
        }),
{
    let code = next_link(p, lay, s)->Some_0;
    let ext = if run_hint(code) != 0 {
        0u8
    } else {
        next_literal(p, lay, s)->Some_0
    };
    lemma_copy_run_len(s.out, back_distance(code), copy_count(code, ext));
}

/// A header with the wrong tag, or with both regions at one offset, is
/// refused as malformed whatever follows it.
pub proof fn law_malformed_rejected(buf: Seq<u8>, at: int)
    requires
        0 <= at,
        at + 16 <= buf.len(),
        !has_tag(view_from(buf, at)) || layout_of(view_from(buf, at)).link == layout_of(
            view_from(buf, at),
        ).data,
    ensures
        decode_spec(buf, at) == Err::<Decoded, Yay0Error>(Yay0Error::MalformedHeader),
{
}

/// Where a block decodes and something was read of its later region, the
/// buffer cut one byte before the block's end runs out of input.
pub proof fn law_truncation_rejected(buf: Seq<u8>, at: int)
    requires
        decode_spec(buf, at) is Ok,
        decode_spec(buf, at)->Ok_0.consumed > trailing_offset(layout_of(view_from(buf, at))),
    ensures
        at + decode_spec(buf, at)->Ok_0.consumed <= buf.len(),
        decode_spec(buf.subrange(0, at + decode_spec(buf, at)->Ok_0.consumed - 1), at) == Err::<
            Decoded,
            Yay0Error,
        >(Yay0Error::TruncatedInput),
{
    let p = view_from(buf, at);
    let lay = layout_of(p);
    let consumed = decode_spec(buf, at)->Ok_0.consumed;
    let cut = consumed - 1;
    lemma_run_end(p, lay, start());
    lemma_run_on_prefix(p, cut, lay, start());
    let short = buf.subrange(0, at + cut);
    assert(view_from(short, at) =~= p.subrange(0, cut));
    if cut >= 16 {
        assert(layout_of(p.subrange(0, cut)) == lay);
        assert(has_tag(p.subrange(0, cut)));
    }
}

} // verus!
