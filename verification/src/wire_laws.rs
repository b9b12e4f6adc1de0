//! Where the numbers stand in the records that are exchanged with the kernel side.

use crate::task_stats::TaskEvent;
use crate::wire;
use crate::wire::ByteOrder;
use vstd::prelude::*;

verus! {

/// The number of four bytes, in either order.
pub proof fn law_number_of_four(a: u8, b: u8, c: u8, d: u8)
    ensures
        wire::number(seq![a, b, c, d], ByteOrder::Little) == a + 256 * b + 65536 * c + 16777216 * d,
        wire::number(seq![a, b, c, d], ByteOrder::Big) == d + 256 * c + 65536 * b + 16777216 * a,
{
    reveal_with_fuel(wire::little, 5);
    assert(seq![a, b, c, d].reverse() =~= seq![d, c, b, a]);
}

/// The number of eight bytes is made of the numbers of its halves: in little order
/// the first half is the low one, in big order the second.
pub proof fn law_number_of_eight(x: Seq<u8>, y: Seq<u8>)
    requires
        x.len() == 4,
        y.len() == 4,
    ensures
        wire::number(x + y, ByteOrder::Little) == wire::number(x, ByteOrder::Little) + 4294967296
            * wire::number(y, ByteOrder::Little),
        wire::number(x + y, ByteOrder::Big) == wire::number(y, ByteOrder::Big) + 4294967296
            * wire::number(x, ByteOrder::Big),
{
    lemma_little_by_halves(x, y);
    lemma_little_by_halves(y.reverse(), x.reverse());
    assert((x + y).reverse() =~= y.reverse() + x.reverse());
}

proof fn lemma_little_by_halves(x: Seq<u8>, y: Seq<u8>)
    requires
        x.len() == 4,
        y.len() == 4,
    ensures
        wire::little(x + y) == wire::little(x) + 4294967296 * wire::little(y),
{
    reveal_with_fuel(wire::little, 6);
    let s = x + y;
    assert(s.drop_first().drop_first().drop_first().drop_first() =~= y);
    assert(s[0] == x[0] && s[1] == x[1] && s[2] == x[2] && s[3] == x[3]);
}

/// The pattern of a negative number is that of two's complement.
pub proof fn law_twos_complement(n: i32)
    ensures
        n >= 0 ==> wire::pattern(n) == n,
        n < 0 ==> wire::pattern(n) == 4294967296 + n,
{
}

/// An event record is its fields one after the other, 44 bytes, and anything may
/// follow them.
pub proof fn law_event_layout(
    tid: Seq<u8>,
    parent: Seq<u8>,
    sleep_start: Seq<u8>,
    sleep_end: Seq<u8>,
    runtime_ns: Seq<u8>,
    yield_cnt: Seq<u8>,
    runnable_stop_cnt: Seq<u8>,
    stop_cnt: Seq<u8>,
    rest: Seq<u8>,
    order: ByteOrder,
    e: TaskEvent,
)
    requires
        tid.len() == 4,
        parent.len() == 4,
        sleep_start.len() == 8,
        sleep_end.len() == 8,
        runtime_ns.len() == 8,
        yield_cnt.len() == 4,
        runnable_stop_cnt.len() == 4,
        stop_cnt.len() == 4,
    ensures
        wire::is_event(
            tid + parent + sleep_start + sleep_end + runtime_ns + yield_cnt + runnable_stop_cnt
                + stop_cnt + rest,
            order,
            e,
        ) <==> {
            &&& wire::number(tid, order) == wire::pattern(e.tid)
            &&& wire::number(parent, order) == wire::pattern(e.parent)
            &&& wire::number(sleep_start, order) == e.sleep_start
            &&& wire::number(sleep_end, order) == e.sleep_end
            &&& wire::number(runtime_ns, order) == e.runtime_ns
            &&& wire::number(yield_cnt, order) == e.yield_cnt
            &&& wire::number(runnable_stop_cnt, order) == e.runnable_stop_cnt
            &&& wire::number(stop_cnt, order) == e.stop_cnt
        },
{
    let data = tid + parent + sleep_start + sleep_end + runtime_ns + yield_cnt + runnable_stop_cnt
        + stop_cnt + rest;
    assert(data.subrange(0, 4) =~= tid);
    assert(data.subrange(4, 8) =~= parent);
    assert(data.subrange(8, 16) =~= sleep_start);
    assert(data.subrange(16, 24) =~= sleep_end);
    assert(data.subrange(24, 32) =~= runtime_ns);
    assert(data.subrange(32, 36) =~= yield_cnt);
    assert(data.subrange(36, 40) =~= runnable_stop_cnt);
    assert(data.subrange(40, 44) =~= stop_cnt);
}

/// An event record takes 48 bytes.
pub proof fn law_event_size()
    ensures
        wire::EVENT_SIZE == 48,
{
}

/// Scheduling parameters are the priority, the kind, the preference, two zero bytes
/// and the slice, one after the other, and nothing more.
pub proof fn law_sched_info_layout(
    prio: Seq<u8>,
    kind: u8,
    prefer: u8,
    pad: Seq<u8>,
    slice: Seq<u8>,
    order: ByteOrder,
    info: (i32, u8, u8, u64),
)
    requires
        prio.len() == 4,
        pad.len() == 2,
        slice.len() == 8,
    ensures
        wire::is_sched_info(
            prio + seq![kind, prefer] + pad + slice,
            order,
            info.0,
            info.1,
            info.2,
            info.3,
        ) <==> {
            &&& wire::number(prio, order) == wire::pattern(info.0)
            &&& kind == info.1
            &&& prefer == info.2
            &&& pad[0] == 0
            &&& pad[1] == 0
            &&& wire::number(slice, order) == info.3
        },
{
    let bytes = prio + seq![kind, prefer] + pad + slice;
    assert(bytes.subrange(0, 4) =~= prio);
    assert(bytes.subrange(8, 16) =~= slice);
    assert(bytes[4] == kind);
    assert(bytes[5] == prefer);
    assert(bytes[6] == pad[0]);
    assert(bytes[7] == pad[1]);
}

/// Scheduling parameters take 16 bytes.
pub proof fn law_sched_info_size(bytes: Seq<u8>, order: ByteOrder, info: (i32, u8, u8, u64))
    requires
        wire::is_sched_info(bytes, order, info.0, info.1, info.2, info.3),
    ensures
        bytes.len() == 16,
{
}

/// The words of a record stand one after the other, eight bytes each: six of them.
pub proof fn law_record_words(
    data: Seq<u8>,
    words: Seq<u64>,
    order: ByteOrder,
    before: Seq<u8>,
    word: Seq<u8>,
    after: Seq<u8>,
    i: int,
)
    requires
        wire::are_record_words(data, words, order),
        data == before + word + after,
        word.len() == 8,
        0 <= i < 6,
        before.len() == 8 * i,
    ensures
        words.len() == 6,
        data.len() >= 48,
        words[i] == wire::number(word, order),
{
    assert(data.subrange(8 * i, 8 * i + 8) =~= word);
    assert(words[i] == wire::number(data.subrange(8 * i, 8 * i + 8), order));
}

} // verus!
