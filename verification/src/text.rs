//! Text as sequences of characters: splitting, trimming, and the decimal
//! numbers that `/proc` and `/sys` files are made of.

use vstd::prelude::*;

verus! {

// ---------------------------------------------------------------------------
// The standard library's character and string primitives
// ---------------------------------------------------------------------------

/// Whether a character has the Unicode `White_Space` property: the code points
/// that the Unicode Character Database lists under that name in
/// `PropList.txt`.
pub open spec fn whitespace(c: char) -> bool {
    let u = c as u32;
    ||| 0x09 <= u <= 0x0d
    ||| u == 0x20
    ||| u == 0x85
    ||| u == 0xa0
    ||| u == 0x1680
    ||| 0x2000 <= u <= 0x200a
    ||| u == 0x2028
    ||| u == 0x2029
    ||| u == 0x202f
    ||| u == 0x205f
    ||| u == 0x3000
}

/// The characters that `char::to_lowercase` maps a character to.
pub uninterp spec fn lowercase(c: char) -> Seq<char>;

/// An ASCII character with `A` to `Z` mapped to `a` to `z`.
pub open spec fn ascii_lowercase(c: char) -> char {
    if 'A' <= c <= 'Z' {
        (c as u32 + 32) as char
    } else {
        c
    }
}

/// The text that `String::from_utf8_lossy` decodes bytes to.
pub uninterp spec fn utf8_lossy(bytes: Seq<u8>) -> Seq<char>;

/// `char::is_whitespace`: documented as the Unicode `White_Space` property.
pub assume_specification[ char::is_whitespace ](c: char) -> (r: bool)
    ensures
        r == whitespace(c),
;

/// `String::push`: appends one character.
pub assume_specification[ String::push ](s: &mut String, c: char)
    ensures
        final(s)@ == old(s)@.push(c),
;

/// `String::push_str`: appends a string slice.
pub assume_specification[ String::push_str ](s: &mut String, other: &str)
    ensures
        final(s)@ == old(s)@ + other@,
;

/// `char::to_lowercase`: the characters that the Unicode mapping gives for `c`.
/// On ASCII that is one character; on others the result is named, not
/// described.
#[verifier::external_body]
pub(crate) fn lower(c: char) -> (r: Vec<char>)
    ensures
        r@ == lowercase(c),
        c as u32 <= 0x7f ==> r@ == seq![ascii_lowercase(c)],
{
    c.to_lowercase().collect()
}

/// `String::from_utf8_lossy`: valid UTF-8 is decoded as it stands; for other
/// bytes the result is named, not described.
#[verifier::external_body]
pub(crate) fn lossy(bytes: &[u8]) -> (r: String)
    ensures
        r@ == utf8_lossy(bytes@),
        vstd::utf8::valid_utf8(bytes@) ==> r@ == vstd::utf8::decode_utf8(bytes@),
{
    String::from_utf8_lossy(bytes).into_owned()
}

// ---------------------------------------------------------------------------
// Between strings and vectors of characters
// ---------------------------------------------------------------------------

/// The characters of `s`, in order.
pub fn chars_of(s: &str) -> (r: Vec<char>)
    ensures
        r@ == s@,
{
    let mut r: Vec<char> = Vec::new();
    for c in it: s.chars()
        invariant
            r@ == it.seq().take(it.index() as int),
            it.seq() == s@,
    {
        r.push(c);
    }
    assert(s@.take(s@.len() as int) == s@);
    r
}

/// The string made of the characters of `v`, in order.
pub fn string_of(v: &Vec<char>) -> (r: String)
    ensures
        r@ == v@,
{
    let mut r = String::new();
    for i in 0..v.len()
        invariant
            r@ == v@.take(i as int),
    {
        r.push(v[i]);
        assert(v@.take(i as int).push(v@[i as int]) == v@.take(i + 1));
    }
    assert(v@.take(v@.len() as int) == v@);
    r
}

/// Whether two vectors hold the same characters.
pub fn same_chars(a: &Vec<char>, b: &Vec<char>) -> (r: bool)
    ensures
        r == (a@ == b@),
{
    if a.len() != b.len() {
        return false;
    }
    for i in 0..a.len()
        invariant
            a@.len() == b@.len(),
            forall|j: int| 0 <= j < i ==> a@[j] == b@[j],
    {
        if a[i] != b[i] {
            assert(a@[i as int] != b@[i as int]);
            return false;
        }
    }
    assert(a@ =~= b@);
    true
}

/// Whether two string slices hold the same text.
pub fn same_text(a: &str, b: &str) -> (r: bool)
    ensures
        r == (a@ == b@),
{
    same_chars(&chars_of(a), &chars_of(b))
}

// ---------------------------------------------------------------------------
// Trimming
// ---------------------------------------------------------------------------

/// `s` without the whitespace it starts with.
pub open spec fn trim_start(s: Seq<char>) -> Seq<char>
    decreases s.len(),
{
    if s.len() > 0 && whitespace(s[0]) {
        trim_start(s.drop_first())
    } else {
        s
    }
}

/// `s` without the whitespace it ends with.
pub open spec fn trim_end(s: Seq<char>) -> Seq<char>
    decreases s.len(),
{
    if s.len() > 0 && whitespace(s.last()) {
        trim_end(s.drop_last())
    } else {
        s
    }
}

/// `s` without the whitespace it starts and ends with.
pub open spec fn trimmed(s: Seq<char>) -> Seq<char> {
    trim_end(trim_start(s))
}

/// Removes leading and trailing whitespace.
pub fn trim(v: &Vec<char>) -> (r: Vec<char>)
    ensures
        r@ == trimmed(v@),
{
    let n = v.len();
    let mut lo: usize = 0;
    assert(v@.skip(0) == v@);
    while lo < n && v[lo].is_whitespace()
        invariant
            n == v@.len(),
            lo <= n,
            trim_start(v@) == trim_start(v@.skip(lo as int)),
        decreases n - lo,
    {
        assert(v@.skip(lo as int).drop_first() == v@.skip(lo + 1));
        lo = lo + 1;
    }
    let ghost mid = v@.skip(lo as int);
    assert(trim_start(v@) == mid);
    let mut hi: usize = n;
    assert(v@.subrange(lo as int, hi as int) == mid);
    while lo < hi && v[hi - 1].is_whitespace()
        invariant
            n == v@.len(),
            lo <= hi <= n,
            trim_end(mid) == trim_end(v@.subrange(lo as int, hi as int)),
        decreases hi,
    {
        assert(v@.subrange(lo as int, hi as int).drop_last() == v@.subrange(
            lo as int,
            hi - 1,
        ));
        hi = hi - 1;
    }
    piece(v, lo, hi)
}

/// The characters of `v` from `lo` up to, not including, `hi`.
pub fn piece(v: &Vec<char>, lo: usize, hi: usize) -> (r: Vec<char>)
    requires
        lo <= hi <= v@.len(),
    ensures
        r@ == v@.subrange(lo as int, hi as int),
{
    let mut r: Vec<char> = Vec::new();
    let mut i: usize = lo;
    while i < hi
        invariant
            lo <= i <= hi <= v@.len(),
            r@ == v@.subrange(lo as int, i as int),
        decreases hi - i,
    {
        r.push(v[i]);
        assert(v@.subrange(lo as int, i as int).push(v@[i as int]) == v@.subrange(
            lo as int,
            i + 1,
        ));
        i = i + 1;
    }
    r
}

/// `s` without leading and trailing whitespace.
pub fn trim_text(s: &str) -> (r: String)
    ensures
        r@ == trimmed(s@),
{
    string_of(&trim(&chars_of(s)))
}

// ---------------------------------------------------------------------------
// Splitting and joining
// ---------------------------------------------------------------------------

/// The pieces of `s` between the occurrences of `sep`; always at least one.
pub open spec fn fields<T>(s: Seq<T>, sep: T) -> Seq<Seq<T>>
    decreases s.len(),
{
    if s.len() == 0 {
        seq![Seq::empty()]
    } else {
        let front = fields(s.drop_last(), sep);
        if s.last() == sep {
            front.push(Seq::empty())
        } else {
            front.drop_last().push(front.last().push(s.last()))
        }
    }
}

/// The maximal runs of `s` that hold no whitespace.
pub open spec fn words(s: Seq<char>) -> Seq<Seq<char>>
    decreases s.len(),
{
    if s.len() == 0 {
        Seq::empty()
    } else {
        let front = words(s.drop_last());
        if whitespace(s.last()) {
            front
        } else if s.len() > 1 && !whitespace(s[s.len() - 2]) {
            front.drop_last().push(front.last().push(s.last()))
        } else {
            front.push(seq![s.last()])
        }
    }
}

/// `parts` one after the other, with `sep` between neighbours.
pub open spec fn join<T>(parts: Seq<Seq<T>>, sep: T) -> Seq<T>
    decreases parts.len(),
{
    if parts.len() == 0 {
        Seq::empty()
    } else if parts.len() == 1 {
        parts[0]
    } else {
        join(parts.drop_last(), sep).push(sep) + parts.last()
    }
}

proof fn lemma_fields_nonempty<T>(s: Seq<T>, sep: T)
    ensures
        fields(s, sep).len() > 0,
    decreases s.len(),
{
    if s.len() > 0 {
        lemma_fields_nonempty(s.drop_last(), sep);
    }
}

/// Text without a separator extends the last piece.
proof fn lemma_fields_extend<T>(s: Seq<T>, t: Seq<T>, sep: T)
    requires
        !t.contains(sep),
    ensures
        fields(s + t, sep) == fields(s, sep).drop_last().push(fields(s, sep).last() + t),
    decreases t.len(),
{
    lemma_fields_nonempty(s, sep);
    if t.len() == 0 {
        assert(s + t == s);
        assert(fields(s, sep).last() + t == fields(s, sep).last());
        assert(fields(s, sep).drop_last().push(fields(s, sep).last()) == fields(s, sep));
    } else {
        let front = t.drop_last();
        assert(!front.contains(sep)) by {
            if front.contains(sep) {
                let i = choose|i: int| 0 <= i < front.len() && front[i] == sep;
                assert(t[i] == sep);
            }
        }
        assert(t[t.len() - 1] != sep);
        lemma_fields_extend(s, front, sep);
        assert((s + t).drop_last() == s + front);
        let before = fields(s, sep).drop_last().push(fields(s, sep).last() + front);
        assert(before.drop_last() == fields(s, sep).drop_last());
        assert((fields(s, sep).last() + front).push(t.last()) == fields(s, sep).last() + t);
    }
}

/// Splitting at the separator undoes joining, if no part holds the separator
/// and there is at least one part.
pub proof fn law_split_undoes_join<T>(parts: Seq<Seq<T>>, sep: T)
    requires
        parts.len() > 0,
        forall|i: int| 0 <= i < parts.len() ==> !(#[trigger] parts[i]).contains(sep),
    ensures
        fields(join(parts, sep), sep) == parts,
    decreases parts.len(),
{
    let last = parts.last();
    assert(!parts[parts.len() - 1].contains(sep));
    if parts.len() == 1 {
        lemma_fields_extend(Seq::<T>::empty(), last, sep);
        assert(Seq::<T>::empty() + last == last);
        assert(fields(Seq::<T>::empty(), sep).drop_last().push(last) == parts);
    } else {
        let front = parts.drop_last();
        assert forall|i: int| 0 <= i < front.len() implies !(#[trigger] front[i]).contains(
            sep,
        ) by {
            assert(front[i] == parts[i]);
        }
        law_split_undoes_join(front, sep);
        let head = join(front, sep).push(sep);
        assert(head.drop_last() == join(front, sep));
        lemma_fields_extend(head, last, sep);
        assert(fields(head, sep) == front.push(Seq::empty()));
        assert(front.push(Seq::<T>::empty()).drop_last() == front);
        assert(Seq::<T>::empty() + last == last);
        assert(front.push(last) == parts);
    }
}

/// Joining two lists of parts joins their joins.
pub proof fn law_join_by_parts<T>(a: Seq<Seq<T>>, b: Seq<Seq<T>>, sep: T)
    requires
        a.len() > 0,
        b.len() > 0,
    ensures
        join(a + b, sep) == join(a, sep).push(sep) + join(b, sep),
    decreases b.len(),
{
    assert((a + b).drop_last() == a + b.drop_last());
    if b.len() == 1 {
        assert(a + b.drop_last() == a);
    } else {
        law_join_by_parts(a, b.drop_last(), sep);
        assert(join(a + b, sep) =~= join(a, sep).push(sep) + join(b, sep));
    }
}

/// What the elements of a vector of vectors view as.
pub open spec fn views<T>(v: Seq<Vec<T>>) -> Seq<Seq<T>> {
    v.map_values(|x: Vec<T>| x@)
}

/// Splits `v` at every `sep`.
pub fn split_chars(v: &Vec<char>, sep: char) -> (r: Vec<Vec<char>>)
    ensures
        views(r@) == fields(v@, sep),
{
    let mut r: Vec<Vec<char>> = Vec::new();
    let mut cur: Vec<char> = Vec::new();
    for i in 0..v.len()
        invariant
            views(r@).push(cur@) == fields(v@.take(i as int), sep),
    {
        let c = v[i];
        let ghost before = views(r@).push(cur@);
        assert(v@.take(i + 1).drop_last() == v@.take(i as int));
        assert(before.drop_last() == views(r@));
        if c == sep {
            r.push(cur);
            cur = Vec::new();
            assert(views(r@) == before);
        } else {
            cur.push(c);
        }
        assert(views(r@).push(cur@) == fields(v@.take(i + 1), sep));
    }
    let ghost before = views(r@).push(cur@);
    r.push(cur);
    assert(views(r@) == before);
    assert(v@.take(v@.len() as int) == v@);
    r
}

/// Splits `v` at every `sep`.
pub fn split_bytes(v: &[u8], sep: u8) -> (r: Vec<Vec<u8>>)
    ensures
        views(r@) == fields(v@, sep),
{
    let mut r: Vec<Vec<u8>> = Vec::new();
    let mut cur: Vec<u8> = Vec::new();
    for i in 0..v.len()
        invariant
            views(r@).push(cur@) == fields(v@.take(i as int), sep),
    {
        let c = v[i];
        let ghost before = views(r@).push(cur@);
        assert(v@.take(i + 1).drop_last() == v@.take(i as int));
        assert(before.drop_last() == views(r@));
        if c == sep {
            r.push(cur);
            cur = Vec::new();
            assert(views(r@) == before);
        } else {
            cur.push(c);
        }
        assert(views(r@).push(cur@) == fields(v@.take(i + 1), sep));
    }
    let ghost before = views(r@).push(cur@);
    r.push(cur);
    assert(views(r@) == before);
    assert(v@.take(v@.len() as int) == v@);
    r
}

/// Splits `v` at runs of whitespace.
pub fn split_words(v: &Vec<char>) -> (r: Vec<Vec<char>>)
    ensures
        views(r@) == words(v@),
{
    let mut r: Vec<Vec<char>> = Vec::new();
    let mut cur: Vec<char> = Vec::new();
    for i in 0..v.len()
        invariant
            cur@.len() > 0 <==> i > 0 && !whitespace(v@[i - 1]),
            cur@.len() == 0 ==> views(r@) == words(v@.take(i as int)),
            cur@.len() > 0 ==> views(r@).push(cur@) == words(v@.take(i as int)),
    {
        let c = v[i];
        let ghost old_r = views(r@);
        let ghost old_cur = cur@;
        assert(v@.take(i + 1).drop_last() == v@.take(i as int));
        assert(v@.take(i + 1).last() == c);
        assert(i > 0 ==> v@.take(i + 1)[i - 1] == v@[i - 1]);
        assert(old_r.push(old_cur).drop_last() == old_r);
        if c.is_whitespace() {
            if cur.len() > 0 {
                r.push(cur);
                cur = Vec::new();
                assert(views(r@) == old_r.push(old_cur));
            }
        } else {
            cur.push(c);
            assert(old_cur.len() == 0 ==> cur@ == seq![c]);
        }
    }
    assert(v@.take(v@.len() as int) == v@);
    if cur.len() > 0 {
        let ghost before = views(r@).push(cur@);
        r.push(cur);
        assert(views(r@) == before);
    }
    r
}

/// Whether `s` begins with `prefix`.
pub open spec fn starts_with(s: Seq<char>, prefix: Seq<char>) -> bool {
    prefix.len() <= s.len() && s.take(prefix.len() as int) == prefix
}

/// What follows `prefix` in `v`, if `v` begins with it.
pub fn strip_prefix(v: &Vec<char>, prefix: &Vec<char>) -> (r: Option<Vec<char>>)
    ensures
        r is Some <==> starts_with(v@, prefix@),
        r matches Some(rest) ==> rest@ == v@.skip(prefix@.len() as int),
{
    if v.len() < prefix.len() {
        return None;
    }
    let head = piece(v, 0, prefix.len());
    assert(head@ == v@.take(prefix@.len() as int));
    if !same_chars(&head, prefix) {
        return None;
    }
    let rest = piece(v, prefix.len(), v.len());
    assert(rest@ == v@.skip(prefix@.len() as int));
    Some(rest)
}

/// The position of the first `c` in `s`, or its length if there is none.
pub open spec fn first_index(s: Seq<char>, c: char) -> int
    decreases s.len(),
{
    if s.len() == 0 || s[0] == c {
        0
    } else {
        1 + first_index(s.drop_first(), c)
    }
}

/// What stands before and after the first `c` in `v`, if there is one.
pub fn split_once(v: &Vec<char>, c: char) -> (r: Option<(Vec<char>, Vec<char>)>)
    ensures
        r is Some <==> v@.contains(c),
        r matches Some((a, b)) ==> {
            &&& a@ == v@.take(first_index(v@, c))
            &&& b@ == v@.skip(first_index(v@, c) + 1)
        },
{
    let mut i: usize = 0;
    assert(v@.skip(0) == v@);
    while i < v.len() && v[i] != c
        invariant
            i <= v@.len(),
            first_index(v@, c) == i + first_index(v@.skip(i as int), c),
            forall|j: int| 0 <= j < i ==> v@[j] != c,
        decreases v@.len() - i,
    {
        assert(v@.skip(i as int).drop_first() == v@.skip(i + 1));
        i = i + 1;
    }
    if i == v.len() {
        return None;
    }
    assert(v@[i as int] == c);
    assert(first_index(v@, c) == i);
    let a = piece(v, 0, i);
    let b = piece(v, i + 1, v.len());
    assert(a@ == v@.take(i as int));
    assert(b@ == v@.skip(i + 1));
    Some((a, b))
}

// ---------------------------------------------------------------------------
// Decimal numbers
// ---------------------------------------------------------------------------

/// Whether `c` is a decimal digit.
pub open spec fn is_digit(c: char) -> bool {
    '0' <= c <= '9'
}

/// Whether `s` is one or more decimal digits and nothing else.
pub open spec fn all_digits(s: Seq<char>) -> bool {
    s.len() > 0 && forall|i: int| 0 <= i < s.len() ==> is_digit(#[trigger] s[i])
}

/// Whether `v` is one or more decimal digits and nothing else.
pub fn only_digits(v: &Vec<char>) -> (r: bool)
    ensures
        r == all_digits(v@),
{
    if v.len() == 0 {
        return false;
    }
    for i in 0..v.len()
        invariant
            forall|j: int| 0 <= j < i ==> is_digit(#[trigger] v@[j]),
    {
        if v[i] < '0' || v[i] > '9' {
            assert(!is_digit(v@[i as int]));
            return false;
        }
    }
    true
}

/// The number that a sequence of decimal digits denotes.
pub open spec fn value(s: Seq<char>) -> int
    decreases s.len(),
{
    if s.len() == 0 {
        0
    } else {
        value(s.drop_last()) * 10 + (s.last() as int - '0' as int)
    }
}

/// The number that `s` denotes: decimal digits, with an optional `+` in front.
pub open spec fn unsigned_number(s: Seq<char>) -> Option<int> {
    let body = if s.len() > 0 && s[0] == '+' {
        s.drop_first()
    } else {
        s
    };
    if all_digits(body) {
        Some(value(body))
    } else {
        None
    }
}

/// The number that `s` denotes: decimal digits, with an optional `+` or `-` in
/// front.
pub open spec fn signed_number(s: Seq<char>) -> Option<int> {
    if s.len() > 0 && s[0] == '-' {
        if all_digits(s.drop_first()) {
            Some(-value(s.drop_first()))
        } else {
            None
        }
    } else {
        unsigned_number(s)
    }
}

/// `signed_number`, where it fits an `i32`.
pub open spec fn as_i32(s: Seq<char>) -> Option<i32> {
    match signed_number(s) {
        Some(n) => if i32::MIN <= n <= i32::MAX {
            Some(n as i32)
        } else {
            None
        },
        None => None,
    }
}

/// `unsigned_number`, where it fits a `u32`.
pub open spec fn as_u32(s: Seq<char>) -> Option<u32> {
    match unsigned_number(s) {
        Some(n) => if n <= u32::MAX {
            Some(n as u32)
        } else {
            None
        },
        None => None,
    }
}

proof fn lemma_value_grows(s: Seq<char>, i: int)
    requires
        0 <= i <= s.len(),
        forall|j: int| 0 <= j < s.len() ==> is_digit(#[trigger] s[j]),
    ensures
        0 <= value(s.take(i)) <= value(s),
    decreases s.len(),
{
    if i < s.len() {
        lemma_value_grows(s.drop_last(), i);
        assert(s.drop_last().take(i) == s.take(i));
    } else {
        assert(s.take(i) == s);
        if s.len() > 0 {
            lemma_value_grows(s.drop_last(), s.len() - 1);
        }
    }
}

/// The number that the digits of `v` from `from` on denote, unless something
/// else stands there or the number is over `limit`.
fn parse_digits(v: &Vec<char>, from: usize, limit: u64) -> (r: Option<u64>)
    requires
        from <= v@.len(),
        limit <= 0xffff_ffff,
    ensures
        ({
            let body = v@.skip(from as int);
            match r {
                Some(n) => all_digits(body) && value(body) == n && n <= limit,
                None => !(all_digits(body) && value(body) <= limit),
            }
        }),
{
    let ghost body = v@.skip(from as int);
    if from == v.len() {
        return None;
    }
    let mut n: u64 = 0;
    let mut i: usize = from;
    while i < v.len()
        invariant
            from <= i <= v@.len(),
            limit <= 0xffff_ffff,
            n <= limit,
            body == v@.skip(from as int),
            n == value(body.take(i - from)),
            forall|j: int| 0 <= j < i - from ==> is_digit(#[trigger] body[j]),
        decreases v@.len() - i,
    {
        let c = v[i];
        assert(body[i - from] == c);
        if c < '0' || c > '9' {
            assert(!is_digit(body[i - from]));
            return None;
        }
        let d: u64 = (c as u32 - '0' as u32) as u64;
        let m: u64 = n * 10 + d;
        assert(body.take(i - from + 1).drop_last() == body.take(i - from));
        assert(m == value(body.take(i - from + 1)));
        if m > limit {
            proof {
                if all_digits(body) {
                    lemma_value_grows(body, i - from + 1);
                }
            }
            return None;
        }
        n = m;
        i = i + 1;
    }
    assert(body.take(i - from) == body);
    Some(n)
}

/// Parses an optional sign and decimal digits as an `i32`.
pub fn parse_i32(v: &Vec<char>) -> (r: Option<i32>)
    ensures
        r == as_i32(v@),
{
    assert(v@.skip(0) == v@);
    assert(v@.len() > 0 ==> v@.skip(1) == v@.drop_first());
    if v.len() > 0 && v[0] == '-' {
        match parse_digits(v, 1, 0x8000_0000) {
            Some(n) => {
                proof {
                    lemma_value_grows(v@.skip(1), 0);
                }
                Some((-(n as i64)) as i32)
            },
            None => {
                None
            },
        }
    } else {
        let from: usize = if v.len() > 0 && v[0] == '+' {
            1
        } else {
            0
        };
        match parse_digits(v, from, 0x7fff_ffff) {
            Some(n) => Some(n as i32),
            None => {
                proof {
                    if all_digits(v@.skip(from as int)) {
                        lemma_value_grows(v@.skip(from as int), 0);
                    }
                }
                None
            },
        }
    }
}

/// Parses an optional `+` and decimal digits as a `u32`.
pub fn parse_u32(v: &Vec<char>) -> (r: Option<u32>)
    ensures
        r == as_u32(v@),
{
    assert(v@.skip(0) == v@);
    assert(v@.len() > 0 ==> v@.skip(1) == v@.drop_first());
    let from: usize = if v.len() > 0 && v[0] == '+' {
        1
    } else {
        0
    };
    match parse_digits(v, from, 0xffff_ffff) {
        Some(n) => Some(n as u32),
        None => None,
    }
}

/// The character of a digit below ten.
pub open spec fn digit_char(d: int) -> char {
    ('0' as int + d) as char
}

/// `n` in decimal digits, without leading zeros.
pub open spec fn decimal(n: nat) -> Seq<char>
    decreases n,
{
    if n < 10 {
        seq![digit_char(n as int)]
    } else {
        decimal(n / 10).push(digit_char((n % 10) as int))
    }
}

/// `n` in decimal digits, with a `-` in front where it is negative.
pub open spec fn signed_decimal(n: int) -> Seq<char> {
    if n < 0 {
        seq!['-'] + decimal((-n) as nat)
    } else {
        decimal(n as nat)
    }
}

/// Appends `n` in decimal digits.
pub fn push_decimal(s: &mut String, n: u64)
    ensures
        final(s)@ == old(s)@ + decimal(n as nat),
    decreases n,
{
    if n >= 10 {
        push_decimal(s, n / 10);
    }
    let ghost mid = s@;
    let d = (48u8 + (n % 10) as u8) as char;
    s.push(d);
    assert(s@ =~= old(s)@ + decimal(n as nat));
}

/// Appends `n` in decimal digits, with a `-` in front where it is negative.
pub fn push_signed(s: &mut String, n: i32)
    ensures
        final(s)@ == old(s)@ + signed_decimal(n as int),
{
    if n < 0 {
        s.push('-');
        push_decimal(s, (-(n as i64)) as u64);
        assert(s@ =~= old(s)@ + signed_decimal(n as int));
    } else {
        push_decimal(s, n as u64);
    }
}

/// Printing a number and reading it back gives the number.
pub proof fn law_decimal_round_trip(n: nat)
    ensures
        all_digits(decimal(n)),
        value(decimal(n)) == n,
        unsigned_number(decimal(n)) == Some(n as int),
        signed_number(decimal(n)) == Some(n as int),
    decreases n,
{
    if n >= 10 {
        law_decimal_round_trip(n / 10);
        assert(decimal(n).drop_last() == decimal(n / 10));
    } else {
        reveal_with_fuel(value, 2);
        assert(decimal(n).drop_last() == Seq::<char>::empty());
    }
    assert(decimal(n).last() as int == '0' as int + n % 10);
    assert(value(decimal(n)) == n);
    assert(is_digit(decimal(n)[0]));
}

/// Printing a signed number and reading it back gives the number.
pub proof fn law_signed_round_trip(n: int)
    ensures
        signed_number(signed_decimal(n)) == Some(n),
        i32::MIN <= n <= i32::MAX ==> as_i32(signed_decimal(n)) == Some(n as i32),
{
    if n < 0 {
        law_decimal_round_trip((-n) as nat);
        assert(signed_decimal(n).drop_first() == decimal((-n) as nat));
    } else {
        law_decimal_round_trip(n as nat);
    }
}

} // verus!
