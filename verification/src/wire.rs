//! The records that are exchanged with the kernel side: task events that come
//! in, and scheduling parameters that go out. Both are C structs in the
//! machine's byte order.

use crate::task_stats::TaskEvent;
use vstd::prelude::*;

verus! {

// ---------------------------------------------------------------------------
// Byte order
// ---------------------------------------------------------------------------

/// In which order the bytes of a number stand.
#[derive(Debug, Clone, Copy, PartialEq, Eq, Structural)]
pub enum ByteOrder {
    /// The least significant byte first.
    Little,
    /// The most significant byte first.
    Big,
}

/// The number whose bytes are `bytes`, the least significant first.
pub open spec fn little(bytes: Seq<u8>) -> nat
    decreases bytes.len(),
{
    if bytes.len() == 0 {
        0
    } else {
        bytes[0] as nat + 256 * little(bytes.drop_first())
    }
}

/// The number whose bytes, in the given order, are `bytes`.
pub open spec fn number(bytes: Seq<u8>, order: ByteOrder) -> nat {
    match order {
        ByteOrder::Little => little(bytes),
        ByteOrder::Big => little(bytes.reverse()),
    }
}

/// The 32-bit pattern of an `i32`, as a number.
pub open spec fn pattern(n: i32) -> nat {
    if n < 0 {
        (n + 0x1_0000_0000) as nat
    } else {
        n as nat
    }
}

/// Bytes in a given order are determined by their number.
pub proof fn law_number_fixes_bytes(a: Seq<u8>, b: Seq<u8>, order: ByteOrder)
    requires
        a.len() == b.len(),
        number(a, order) == number(b, order),
    ensures
        a == b,
{
    match order {
        ByteOrder::Little => lemma_little_fixes_bytes(a, b),
        ByteOrder::Big => {
            lemma_little_fixes_bytes(a.reverse(), b.reverse());
            assert(a.reverse().reverse() =~= a);
            assert(b.reverse().reverse() =~= b);
        },
    }
}

proof fn lemma_little_fixes_bytes(a: Seq<u8>, b: Seq<u8>)
    requires
        a.len() == b.len(),
        little(a) == little(b),
    ensures
        a == b,
    decreases a.len(),
{
    if a.len() > 0 {
        lemma_little_fixes_bytes(a.drop_first(), b.drop_first());
        assert(a =~= seq![a[0]] + a.drop_first());
        assert(b =~= seq![b[0]] + b.drop_first());
    } else {
        assert(a =~= b);
    }
}

/// `u64::to_ne_bytes`: the bytes of a number in the machine's byte order. Which
/// order that is, is left open.
#[verifier::external_body]
fn u64_bytes(n: u64) -> (r: [u8; 8])
    ensures
        exists|order: ByteOrder| #[trigger] number(r@, order) == n,
{
    n.to_ne_bytes()
}

/// The byte order in which `one` are the bytes of 1, if they are: then the first
/// of them tells.
pub fn order_of(one: &[u8; 8]) -> (order: ByteOrder)
    ensures
        order is Little <==> one@[0] == 1,
        (exists|o: ByteOrder| #[trigger] number(one@, o) == 1) ==> number(one@, order) == 1,
{
    proof {
        lemma_little_of_eight(one@);
        lemma_little_of_eight(one@.reverse());
    }
    if one[0] == 1 {
        ByteOrder::Little
    } else {
        ByteOrder::Big
    }
}

/// One call of `f`, remembered as such.
fn call<T, R, F: Fn(T) -> R>(f: F, arg: T) -> (r: R)
    requires
        call_requires(f, (arg,)),
    ensures
        call_ensures(f, (arg,), r),
{
    f(arg)
}

/// Whether the machine writes numbers in the given order: whether asking it for
/// the bytes of 1 can give them in that order.
pub closed spec fn is_machine_order(order: ByteOrder) -> bool {
    exists|one: [u8; 8]| #[trigger]
        call_ensures(u64_bytes, (1u64,), one) && number(one@, order) == 1
}

/// The machine's byte order, told by the bytes of 1.
pub fn machine_order() -> (order: ByteOrder)
    ensures
        is_machine_order(order),
{
    let one = call(u64_bytes, 1u64);
    order_of(&one)
}

/// A machine that writes 1 with a 1 in front is not big-endian, and one that writes
/// it without is not little-endian.
proof fn law_bytes_of_one_tell_the_order()
    ensures
        (forall|one: [u8; 8]| #[trigger]
            call_ensures(u64_bytes, (1u64,), one) ==> one@[0] == 1) ==> !is_machine_order(
            ByteOrder::Big,
        ),
        (forall|one: [u8; 8]| #[trigger]
            call_ensures(u64_bytes, (1u64,), one) ==> one@[0] != 1) ==> !is_machine_order(
            ByteOrder::Little,
        ),
{
    assert forall|one: [u8; 8]|
        #![trigger number(one@, ByteOrder::Big)]
        #![trigger number(one@, ByteOrder::Little)]
        (number(one@, ByteOrder::Big) == 1 ==> one@[0] != 1) && (number(one@, ByteOrder::Little)
            == 1 ==> one@[0] == 1) by {
        lemma_little_of_eight(one@);
        lemma_little_of_eight(one@.reverse());
    }
}

proof fn lemma_little_of_four(b: Seq<u8>)
    requires
        b.len() == 4,
    ensures
        little(b) == b[0] + 0x100 * b[1] + 0x1_0000 * b[2] + 0x100_0000 * b[3],
{
    reveal_with_fuel(little, 5);
}

proof fn lemma_little_of_eight(b: Seq<u8>)
    requires
        b.len() == 8,
    ensures
        little(b) == b[0] + 0x100 * b[1] + 0x1_0000 * b[2] + 0x100_0000 * b[3] + 0x1_0000_0000
            * b[4] + 0x100_0000_0000 * b[5] + 0x1_0000_0000_0000 * b[6] + 0x100_0000_0000_0000
            * b[7],
{
    reveal_with_fuel(little, 9);
}

/// The four bytes of a number.
pub fn bytes_of_u32(n: u32, order: ByteOrder) -> (r: [u8; 4])
    ensures
        number(r@, order) == n,
{
    let a = (n % 0x100) as u8;
    let b = (n / 0x100 % 0x100) as u8;
    let c = (n / 0x1_0000 % 0x100) as u8;
    let d = (n / 0x100_0000) as u8;
    proof {
        lemma_little_of_four(seq![a, b, c, d]);
    }
    match order {
        ByteOrder::Little => {
            let r = [a, b, c, d];
            assert(r@ =~= seq![a, b, c, d]);
            r
        },
        ByteOrder::Big => {
            let r = [d, c, b, a];
            assert(r@.reverse() =~= seq![a, b, c, d]);
            r
        },
    }
}

/// The eight bytes of a number.
pub fn bytes_of_u64(n: u64, order: ByteOrder) -> (r: [u8; 8])
    ensures
        number(r@, order) == n,
{
    let low = bytes_of_u32((n % 0x1_0000_0000) as u32, order);
    let high = bytes_of_u32((n / 0x1_0000_0000) as u32, order);
    match order {
        ByteOrder::Little => {
            let r = [
                low[0],
                low[1],
                low[2],
                low[3],
                high[0],
                high[1],
                high[2],
                high[3],
            ];
            proof {
                lemma_little_of_four(low@);
                lemma_little_of_four(high@);
                lemma_little_of_eight(r@);
            }
            r
        },
        ByteOrder::Big => {
            let r = [
                high[0],
                high[1],
                high[2],
                high[3],
                low[0],
                low[1],
                low[2],
                low[3],
            ];
            proof {
                lemma_little_of_four(low@.reverse());
                lemma_little_of_four(high@.reverse());
                lemma_little_of_eight(r@.reverse());
            }
            r
        },
    }
}

/// The 32-bit pattern of a signed number.
fn unsigned(n: i32) -> (r: u32)
    ensures
        r == pattern(n),
{
    if n < 0 {
        (n as i64 + 0x1_0000_0000) as u32
    } else {
        n as u32
    }
}

/// A 32-bit pattern as a signed number.
fn signed(word: u32) -> (r: i32)
    ensures
        pattern(r) == word,
{
    if word < 0x8000_0000 {
        word as i32
    } else {
        (word as i64 - 0x1_0000_0000) as i32
    }
}

// ---------------------------------------------------------------------------
// Task events
// ---------------------------------------------------------------------------

/// Why bytes cannot be read as numbers.
#[verifier::external_type_specification]
#[verifier::external_body]
pub struct ExPlainError(plain::Error);

/// Size of a task event record in bytes.
pub const EVENT_SIZE: usize = 48;

/// Whether `words` are the 64-bit numbers that `bytes` start with.
pub open spec fn are_words(bytes: Seq<u8>, words: Seq<u64>, order: ByteOrder) -> bool {
    forall|i: int|
        0 <= i < words.len() ==> #[trigger] words[i] == number(
            bytes.subrange(8 * i, 8 * i + 8),
            order,
        )
}

/// `plain::copy_from_bytes` into seven `u64`s: fails if there are fewer than 56
/// bytes, else copies the first 56 over the numbers as the machine stores them.
/// The machine's byte order is left open; it is one order for all the numbers.
#[verifier::external_body]
fn read_words(bytes: &Vec<u8>) -> (r: Result<[u64; 7], plain::Error>)
    ensures
        r is Ok <==> bytes@.len() >= 56,
        r matches Ok(words) ==> exists|order: ByteOrder| #[trigger]
            are_words(bytes@, words@, order),
{
    let mut words = [0u64; 7];
    plain::copy_from_bytes(&mut words[..], bytes.as_slice())?;
    Ok(words)
}

/// Whether the machine reads numbers in the given order: whether asking it to read
/// the bytes of 1 can give numbers in that order.
pub closed spec fn is_reading_order(order: ByteOrder) -> bool {
    exists|bytes: Vec<u8>, words: [u64; 7]| #[trigger]
        reads(bytes, words) && are_words(bytes@, words@, order) && bytes@.len() >= 8 && little(
            bytes@.take(8),
        ) == 1
}

/// Whether reading `bytes` can give `words`.
closed spec fn reads(bytes: Vec<u8>, words: [u64; 7]) -> bool {
    call_ensures(read_words, (&bytes,), Ok(words))
}

/// A machine that reads the little-endian bytes of 1 as 1 does not read numbers
/// big-endian, and one that reads them as another number does not read them
/// little-endian.
proof fn law_reading_one_tells_the_order()
    ensures
        (forall|bytes: Vec<u8>, words: [u64; 7]| #[trigger]
            reads(bytes, words) && bytes@.len() >= 8 && little(bytes@.take(8)) == 1 ==> words@[0]
                == 1) ==> !is_reading_order(ByteOrder::Big),
        (forall|bytes: Vec<u8>, words: [u64; 7]| #[trigger]
            reads(bytes, words) && bytes@.len() >= 8 && little(bytes@.take(8)) == 1 ==> words@[0]
                != 1) ==> !is_reading_order(ByteOrder::Little),
{
    assert forall|bytes: Vec<u8>, words: [u64; 7]| #[trigger]
        reads(bytes, words) && bytes@.len() >= 8 && little(bytes@.take(8)) == 1 implies (are_words(
        bytes@,
        words@,
        ByteOrder::Little,
    ) ==> words@[0] == 1) && (are_words(bytes@, words@, ByteOrder::Big) ==> words@[0] != 1) by {
        let first = bytes@.take(8);
        assert(bytes@.subrange(0, 8) =~= first);
        lemma_little_of_eight(first);
        lemma_little_of_eight(first.reverse());
        if are_words(bytes@, words@, ByteOrder::Little) {
            assert(words@[0] == number(bytes@.subrange(0, 8), ByteOrder::Little));
        }
        if are_words(bytes@, words@, ByteOrder::Big) {
            assert(words@[0] == number(bytes@.subrange(0, 8), ByteOrder::Big));
        }
    }
}

/// The number of `len` bytes that stands at `at`.
pub open spec fn number_at(data: Seq<u8>, at: int, len: int, order: ByteOrder) -> nat {
    number(data.subrange(at, at + len), order)
}

/// Whether `e` is the event that the record `data` holds, in the given byte
/// order:
///
/// `tid[0..4] | parent[4..8] | sleep_start[8..16] | sleep_end[16..24] |
/// runtime_ns[24..32] | yield_cnt[32..36] | runnable_stop_cnt[36..40] |
/// stop_cnt[40..44] | pad[44..48]`
pub open spec fn is_event(data: Seq<u8>, order: ByteOrder, e: TaskEvent) -> bool {
    &&& pattern(e.tid) == number_at(data, 0, 4, order)
    &&& pattern(e.parent) == number_at(data, 4, 4, order)
    &&& e.sleep_start == number_at(data, 8, 8, order)
    &&& e.sleep_end == number_at(data, 16, 8, order)
    &&& e.runtime_ns == number_at(data, 24, 8, order)
    &&& e.yield_cnt == number_at(data, 32, 4, order)
    &&& e.runnable_stop_cnt == number_at(data, 36, 4, order)
    &&& e.stop_cnt == number_at(data, 40, 4, order)
}

/// Whether `words` are the eight-byte words of a record that starts with `data`.
pub open spec fn are_record_words(data: Seq<u8>, words: Seq<u64>, order: ByteOrder) -> bool {
    &&& words.len() == 6
    &&& data.len() >= EVENT_SIZE
    &&& are_words(data, words, order)
}

/// The two four-byte numbers in an eight-byte word, in the order in which they
/// stand.
fn halves(word: u64, order: ByteOrder) -> (r: (u32, u32))
    ensures
        forall|b: Seq<u8>|
            b.len() == 8 && #[trigger] number(b, order) == word ==> {
                &&& r.0 == number(b.subrange(0, 4), order)
                &&& r.1 == number(b.subrange(4, 8), order)
            },
{
    let low = (word % 0x1_0000_0000) as u32;
    let high = (word / 0x1_0000_0000) as u32;
    let r = match order {
        ByteOrder::Little => (low, high),
        ByteOrder::Big => (high, low),
    };
    assert forall|b: Seq<u8>| b.len() == 8 && #[trigger] number(b, order) == word implies {
        &&& r.0 == number(b.subrange(0, 4), order)
        &&& r.1 == number(b.subrange(4, 8), order)
    } by {
        match order {
            ByteOrder::Little => {
                lemma_little_of_eight(b);
                lemma_little_of_four(b.subrange(0, 4));
                lemma_little_of_four(b.subrange(4, 8));
            },
            ByteOrder::Big => {
                lemma_little_of_eight(b.reverse());
                lemma_little_of_four(b.subrange(0, 4).reverse());
                lemma_little_of_four(b.subrange(4, 8).reverse());
            },
        }
    }
    r
}

/// The event in a record that has been read as eight-byte words.
pub fn event_of(words: &[u64; 6], order: ByteOrder) -> (r: TaskEvent)
    ensures
        forall|data: Seq<u8>| #[trigger]
            are_record_words(data, words@, order) ==> is_event(data, order, r),
{
    let (tid, parent) = halves(words[0], order);
    let (yield_cnt, runnable_stop_cnt) = halves(words[4], order);
    let (stop_cnt, _pad) = halves(words[5], order);
    let r = TaskEvent {
        tid: signed(tid),
        parent: signed(parent),
        sleep_start: words[1],
        sleep_end: words[2],
        runtime_ns: words[3],
        yield_cnt,
        runnable_stop_cnt,
        stop_cnt,
    };
    assert forall|data: Seq<u8>| #[trigger] are_record_words(data, words@, order) implies is_event(
        data,
        order,
        r,
    ) by {
        assert(words@[0] == number(data.subrange(0, 8), order));
        assert(words@[1] == number(data.subrange(8, 16), order));
        assert(words@[2] == number(data.subrange(16, 24), order));
        assert(words@[3] == number(data.subrange(24, 32), order));
        assert(words@[4] == number(data.subrange(32, 40), order));
        assert(words@[5] == number(data.subrange(40, 48), order));
        assert(data.subrange(0, 8).subrange(0, 4) =~= data.subrange(0, 4));
        assert(data.subrange(0, 8).subrange(4, 8) =~= data.subrange(4, 8));
        assert(data.subrange(32, 40).subrange(0, 4) =~= data.subrange(32, 36));
        assert(data.subrange(32, 40).subrange(4, 8) =~= data.subrange(36, 40));
        assert(data.subrange(40, 48).subrange(0, 4) =~= data.subrange(40, 44));
    }
    r
}

/// Read a task event from the start of a record; None if the record is too
/// short.
pub fn parse_event(data: &[u8]) -> (r: Option<TaskEvent>)
    ensures
        r is Some <==> data@.len() >= EVENT_SIZE,
        r matches Some(e) ==> exists|order: ByteOrder|
            is_reading_order(order) && #[trigger] is_event(data@, order, e),
{
    if data.len() < EVENT_SIZE {
        return None;
    }
    // The word in front tells the order in which the machine reads the others.
    let mut bytes: Vec<u8> = vec![1, 0, 0, 0, 0, 0, 0, 0];
    let ghost first = bytes@;
    for i in 0..EVENT_SIZE
        invariant
            data@.len() >= EVENT_SIZE,
            bytes@ == first + data@.take(i as int),
    {
        bytes.push(data[i]);
        assert(bytes@ =~= first + data@.take(i + 1));
    }
    let words = match call(read_words, &bytes) {
        Ok(words) => words,
        Err(_) => return None,
    };
    let order = if words[0] == 1 {
        ByteOrder::Little
    } else {
        ByteOrder::Big
    };
    let record = [words[1], words[2], words[3], words[4], words[5], words[6]];
    let r = Some(event_of(&record, order));
    proof {
        let machine = choose|order: ByteOrder| #[trigger] are_words(bytes@, words@, order);
        assert(bytes@.subrange(0, 8) =~= first);
        lemma_little_of_eight(first);
        lemma_little_of_eight(first.reverse());
        assert(words@[0] == number(bytes@.subrange(0, 8), machine));
        assert(order == machine);
        assert forall|i: int| 0 <= i < 6 implies #[trigger] record@[i] == number(
            data@.subrange(8 * i, 8 * i + 8),
            order,
        ) by {
            assert(record@[i] == words@[i + 1]);
            assert(bytes@.subrange(8 * (i + 1), 8 * (i + 1) + 8) =~= data@.subrange(
                8 * i,
                8 * i + 8,
            ));
        }
        assert(are_record_words(data@, record@, order));
        assert(bytes@.take(8) =~= first);
        assert(reads(bytes, words));
        assert(is_reading_order(order));
        assert(is_event(data@, order, r->0));
    }
    r
}

/// A record holds one event for each byte order.
pub proof fn law_event_is_determined(data: Seq<u8>, order: ByteOrder, a: TaskEvent, b: TaskEvent)
    requires
        is_event(data, order, a),
        is_event(data, order, b),
    ensures
        a == b,
{
}

// ---------------------------------------------------------------------------
// Scheduling parameters
// ---------------------------------------------------------------------------

/// Whether `bytes` are the bytes of these scheduling parameters, in the given
/// byte order: `prio[0..4] | kind[4] | cpu_prefer[5] | pad[6..8] | slice[8..16]`.
pub open spec fn is_sched_info(
    bytes: Seq<u8>,
    order: ByteOrder,
    prio: i32,
    cpu_kind: u8,
    cpu_prefer: u8,
    slice_ns: u64,
) -> bool {
    &&& bytes.len() == 16
    &&& number_at(bytes, 0, 4, order) == pattern(prio)
    &&& bytes[4] == cpu_kind
    &&& bytes[5] == cpu_prefer
    &&& bytes[6] == 0
    &&& bytes[7] == 0
    &&& number_at(bytes, 8, 8, order) == slice_ns
}

/// The bytes of a task's scheduling parameters.
pub fn encode_sched_info(
    prio: i32,
    cpu_kind: u8,
    cpu_prefer: u8,
    slice_ns: u64,
    order: ByteOrder,
) -> (r: [u8; 16])
    ensures
        is_sched_info(r@, order, prio, cpu_kind, cpu_prefer, slice_ns),
{
    let p = bytes_of_u32(unsigned(prio), order);
    let s = bytes_of_u64(slice_ns, order);
    let r: [u8; 16] = [
        p[0],
        p[1],
        p[2],
        p[3],
        cpu_kind,
        cpu_prefer,
        0,
        0,
        s[0],
        s[1],
        s[2],
        s[3],
        s[4],
        s[5],
        s[6],
        s[7],
    ];
    assert(r@.subrange(0, 4) =~= p@);
    assert(r@.subrange(8, 16) =~= s@);
    r
}

/// The key under which a task's scheduling parameters are filed.
pub fn task_key(tid: i32, order: ByteOrder) -> (r: [u8; 4])
    ensures
        number(r@, order) == pattern(tid),
{
    bytes_of_u32(unsigned(tid), order)
}

/// Whoever reads scheduling parameters in the order in which they were written
/// gets back what was written.
pub proof fn law_sched_info_reads_back(
    bytes: Seq<u8>,
    order: ByteOrder,
    a: (i32, u8, u8, u64),
    b: (i32, u8, u8, u64),
)
    requires
        is_sched_info(bytes, order, a.0, a.1, a.2, a.3),
        is_sched_info(bytes, order, b.0, b.1, b.2, b.3),
    ensures
        a == b,
{
}

/// Scheduling parameters have one form in each byte order.
pub proof fn law_sched_info_is_determined(
    a: Seq<u8>,
    b: Seq<u8>,
    order: ByteOrder,
    info: (i32, u8, u8, u64),
)
    requires
        is_sched_info(a, order, info.0, info.1, info.2, info.3),
        is_sched_info(b, order, info.0, info.1, info.2, info.3),
    ensures
        a == b,
{
    law_number_fixes_bytes(a.subrange(0, 4), b.subrange(0, 4), order);
    law_number_fixes_bytes(a.subrange(8, 16), b.subrange(8, 16), order);
    assert forall|i: int| 0 <= i < 16 implies a[i] == b[i] by {
        if i < 4 {
            assert(a.subrange(0, 4)[i] == b.subrange(0, 4)[i]);
        } else if i >= 8 {
            assert(a.subrange(8, 16)[i - 8] == b.subrange(8, 16)[i - 8]);
        }
    }
    assert(a =~= b);
}

} // verus!
