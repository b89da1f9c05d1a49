//! Byte-string helpers: ASCII case folding, trimming, splitting on a
//! separator byte, and decimal numbers.
use vstd::prelude::*;

verus! {

/// The ASCII lower-case form of one byte.
pub open spec fn lower_byte(b: u8) -> u8 {
    if 0x41 <= b <= 0x5a {
        (b + 0x20) as u8
    } else {
        b
    }
}

/// The ASCII lower-case form of a byte string.
pub open spec fn lowercase(s: Seq<u8>) -> Seq<u8> {
    Seq::new(s.len(), |i: int| lower_byte(s[i]))
}

/// Folds the ASCII capitals of `s` to lower case; every other byte is kept.
pub fn to_lowercase(s: &[u8]) -> (out: Vec<u8>)
    ensures
        out@ == lowercase(s@),
{
    let mut out: Vec<u8> = Vec::new();
    let mut i: usize = 0;
    while i < s.len()
        invariant
            i <= s.len(),
            out@ == lowercase(s@.take(i as int)),
        decreases s.len() - i,
    {
        let b: u8 = s[i];
        let l: u8 = if 0x41 <= b && b <= 0x5a { b + 0x20 } else { b };
        out.push(l);
        i += 1;
        assert(out@ =~= lowercase(s@.take(i as int)));
    }
    assert(s@.take(i as int) =~= s@);
    out
}

/// Whether two byte strings are the same.
pub fn same_bytes(a: &[u8], b: &[u8]) -> (r: bool)
    ensures
        r == (a@ == b@),
{
    if a.len() != b.len() {
        return false;
    }
    let mut i: usize = 0;
    while i < a.len()
        invariant
            i <= a.len(),
            a@.len() == b@.len(),
            a@.take(i as int) == b@.take(i as int),
        decreases a.len() - i,
    {
        if a[i] != b[i] {
            return false;
        }
        i += 1;
        assert(a@.take(i as int) =~= a@.take(i - 1).push(a@[i - 1]));
        assert(b@.take(i as int) =~= b@.take(i - 1).push(b@[i - 1]));
    }
    assert(a@.take(i as int) =~= a@);
    assert(b@.take(i as int) =~= b@);
    true
}

/// White space in the ASCII range: space, tab, line feed, vertical tab, form
/// feed and carriage return.
pub open spec fn is_space(b: u8) -> bool {
    b == 0x20 || (0x09 <= b <= 0x0d)
}

/// `s` without its leading white space.
pub open spec fn trim_start(s: Seq<u8>) -> Seq<u8>
    decreases s.len(),
{
    if s.len() > 0 && is_space(s[0]) {
        trim_start(s.drop_first())
    } else {
        s
    }
}

/// `s` without its trailing white space.
pub open spec fn trim_end(s: Seq<u8>) -> Seq<u8>
    decreases s.len(),
{
    if s.len() > 0 && is_space(s.last()) {
        trim_end(s.drop_last())
    } else {
        s
    }
}

/// `s` without the white space that surrounds it.
pub open spec fn trim(s: Seq<u8>) -> Seq<u8> {
    trim_end(trim_start(s))
}

/// Strips the white space at both ends of `s`.
pub fn trimmed(s: &[u8]) -> (out: &[u8])
    ensures
        out@ == trim(s@),
{
    let n: usize = s.len();
    let mut lo: usize = 0;
    assert(s@.skip(0) =~= s@);
    while lo < n && is_space_byte(s[lo])
        invariant
            lo <= n,
            n == s@.len(),
            trim_start(s@) == trim_start(s@.skip(lo as int)),
        decreases n - lo,
    {
        assert(s@.skip(lo as int).drop_first() =~= s@.skip(lo + 1));
        lo += 1;
    }
    assert(s@.skip(lo as int) =~= s@.subrange(lo as int, n as int));
    let mut hi: usize = n;
    while hi > lo && is_space_byte(s[hi - 1])
        invariant
            lo <= hi <= n,
            n == s@.len(),
            trim_start(s@) == s@.skip(lo as int),
            trim(s@) == trim_end(s@.subrange(lo as int, hi as int)),
        decreases hi - lo,
    {
        assert(s@.subrange(lo as int, hi as int).drop_last() =~= s@.subrange(lo as int, hi - 1));
        hi -= 1;
    }
    vstd::slice::slice_subrange(s, lo, hi)
}

/// Whether `b` is ASCII white space.
pub fn is_space_byte(b: u8) -> (r: bool)
    ensures
        r == is_space(b),
{
    b == 0x20 || (0x09 <= b && b <= 0x0d)
}

/// Whether `b` is an ASCII decimal digit.
pub open spec fn is_digit(b: u8) -> bool {
    0x30 <= b <= 0x39
}

/// Whether `s` holds ASCII decimal digits and nothing else.
pub open spec fn all_digits(s: Seq<u8>) -> bool {
    forall|i: int| 0 <= i < s.len() ==> is_digit(#[trigger] s[i])
}

/// The number that the decimal digits of `s` write, most significant first.
/// The empty string writes zero, and leading zeros add nothing.
pub open spec fn digits_value(s: Seq<u8>) -> nat
    decreases s.len(),
{
    if s.len() == 0 {
        0
    } else {
        digits_value(s.drop_last()) * 10 + (s.last() - 0x30) as nat
    }
}

/// A prefix of a digit string never writes a larger number than the whole.
pub proof fn lemma_digits_value_prefix(s: Seq<u8>, k: int)
    requires
        all_digits(s),
        0 <= k <= s.len(),
    ensures
        digits_value(s.take(k)) <= digits_value(s),
    decreases s.len(),
{
    if k == s.len() {
        assert(s.take(k) =~= s);
    } else {
        assert(s.drop_last().take(k) =~= s.take(k));
        lemma_digits_value_prefix(s.drop_last(), k);
    }
}

/// Reads `s` as a decimal number of digits only, no sign. The empty string
/// reads as zero. There is a number exactly when every byte is a digit and
/// the value is at most `max`.
pub fn parse_digits(s: &[u8], max: u64) -> (r: Option<u64>)
    ensures
        r.is_some() <==> all_digits(s@) && digits_value(s@) <= max,
        r matches Some(v) ==> v == digits_value(s@),
{
    let mut acc: u64 = 0;
    let mut i: usize = 0;
    while i < s.len()
        invariant
            i <= s.len(),
            all_digits(s@.take(i as int)),
            acc == digits_value(s@.take(i as int)),
            acc <= max,
        decreases s.len() - i,
    {
        let b: u8 = s[i];
        if !(0x30 <= b && b <= 0x39) {
            return None;
        }
        let d: u64 = (b - 0x30) as u64;
        proof {
            assert(s@.take(i + 1).drop_last() =~= s@.take(i as int));
            assert(s@.take(i + 1).last() == b);
            assert(digits_value(s@.take(i + 1)) == acc * 10 + d);
            if all_digits(s@) {
                lemma_digits_value_prefix(s@, i + 1);
            }
        }
        if d > max || acc > (max - d) / 10 {
            return None;
        }
        acc = acc * 10 + d;
        i += 1;
    }
    assert(s@.take(i as int) =~= s@);
    Some(acc)
}

/// Reads `s` as a decimal number of at least one digit, no sign and nothing
/// else, with a value of at most `max`.
pub fn parse_decimal(s: &[u8], max: u64) -> (r: Option<u64>)
    ensures
        r.is_some() <==> s@.len() > 0 && all_digits(s@) && digits_value(s@) <= max,
        r matches Some(v) ==> v == digits_value(s@),
{
    if s.len() == 0 {
        None
    } else {
        parse_digits(s, max)
    }
}

/// The length of the part of `s` before the first `sep`, which is all of `s`
/// where `sep` does not occur.
pub open spec fn field_len(s: Seq<u8>, sep: u8) -> int
    decreases s.len(),
{
    if s.len() == 0 || s[0] == sep {
        0
    } else {
        1 + field_len(s.drop_first(), sep)
    }
}

/// The fields of `s`: the parts between the occurrences of `sep`, in order.
/// There is always at least one field; an empty string has one empty field.
pub open spec fn split_on(s: Seq<u8>, sep: u8) -> Seq<Seq<u8>>
    decreases s.len(),
{
    let n = field_len(s, sep);
    if 0 <= n < s.len() {
        seq![s.take(n)] + split_on(s.skip(n + 1), sep)
    } else {
        seq![s]
    }
}

/// `field_len` is the place of the first separator, or the length.
pub proof fn lemma_field_len(s: Seq<u8>, sep: u8, k: int)
    requires
        0 <= k <= s.len(),
        forall|j: int| 0 <= j < k ==> s[j] != sep,
        k < s.len() ==> s[k] == sep,
    ensures
        field_len(s, sep) == k,
    decreases k,
{
    if k > 0 {
        lemma_field_len(s.drop_first(), sep, k - 1);
    }
}

/// `field_len` is where the first separator stands: a place within `s`,
/// with no separator before it, and a separator at it unless it is the end.
pub proof fn lemma_field_len_is_first(s: Seq<u8>, sep: u8)
    ensures
        0 <= field_len(s, sep) <= s.len(),
        forall|j: int| 0 <= j < field_len(s, sep) ==> s[j] != sep,
        field_len(s, sep) < s.len() ==> s[field_len(s, sep)] == sep,
    decreases s.len(),
{
    if !(s.len() == 0 || s[0] == sep) {
        let rest = s.drop_first();
        lemma_field_len_is_first(rest, sep);
        assert forall|j: int| 0 <= j < field_len(s, sep) implies s[j] != sep by {
            if j > 0 {
                assert(s[j] == rest[j - 1]);
            }
        }
    }
}

/// A split has at least one field, and its first field is what stands
/// before the first separator.
pub proof fn lemma_split_nonempty(s: Seq<u8>, sep: u8)
    ensures
        split_on(s, sep).len() >= 1,
        split_on(s, sep)[0] == s.take(field_len(s, sep)),
{
    lemma_field_len_is_first(s, sep);
    if field_len(s, sep) >= s.len() {
        assert(s.take(s.len() as int) =~= s);
    }
}

/// The fields put together again, with `sep` between each two.
pub open spec fn join(fields: Seq<Seq<u8>>, sep: u8) -> Seq<u8>
    decreases fields.len(),
{
    if fields.len() == 0 {
        Seq::empty()
    } else if fields.len() == 1 {
        fields[0]
    } else {
        fields[0] + seq![sep] + join(fields.drop_first(), sep)
    }
}

/// Splitting loses nothing and leaves no separator behind: no field holds
/// `sep`, and the fields joined by `sep` are the string that was split.
pub proof fn lemma_split_join(s: Seq<u8>, sep: u8)
    ensures
        join(split_on(s, sep), sep) == s,
        forall|i: int|
            0 <= i < split_on(s, sep).len() ==> !(#[trigger] split_on(s, sep)[i]).contains(sep),
    decreases s.len(),
{
    let n = field_len(s, sep);
    lemma_field_len_is_first(s, sep);
    let fields = split_on(s, sep);
    if n < s.len() {
        let rest = s.skip(n + 1);
        lemma_split_join(rest, sep);
        lemma_split_nonempty(rest, sep);
        assert(fields.drop_first() =~= split_on(rest, sep));
        assert(s.take(n) + seq![sep] + rest =~= s);
        assert forall|i: int| 0 <= i < fields.len() implies !(#[trigger] fields[i]).contains(
            sep,
        ) by {
            if i > 0 {
                assert(fields[i] == split_on(rest, sep)[i - 1]);
            }
        }
    }
}

/// `s` without its leading zeros.
pub open spec fn strip_zeros(s: Seq<u8>) -> Seq<u8>
    decreases s.len(),
{
    if s.len() > 0 && s[0] == 0x30 {
        strip_zeros(s.drop_first())
    } else {
        s
    }
}

/// A zero in front of a digit string adds nothing to the number.
pub proof fn lemma_zero_in_front(s: Seq<u8>)
    ensures
        digits_value(seq![0x30u8] + s) == digits_value(s),
    decreases s.len(),
{
    let z = seq![0x30u8] + s;
    if s.len() == 0 {
        assert(z.drop_last() =~= Seq::<u8>::empty());
        assert(z.last() == 0x30);
        assert(digits_value(z.drop_last()) == 0);
    } else {
        assert(z.drop_last() =~= seq![0x30u8] + s.drop_last());
        assert(z.last() == s.last());
        lemma_zero_in_front(s.drop_last());
    }
}

/// Leading zeros do not count: a string and the same string without them
/// write the same number, and either both hold digits only or neither does.
pub proof fn lemma_leading_zeros(s: Seq<u8>)
    ensures
        digits_value(strip_zeros(s)) == digits_value(s),
        all_digits(strip_zeros(s)) == all_digits(s),
    decreases s.len(),
{
    if s.len() > 0 && s[0] == 0x30 {
        let rest = s.drop_first();
        lemma_leading_zeros(rest);
        lemma_zero_in_front(rest);
        assert(seq![0x30u8] + rest =~= s);
        if all_digits(rest) {
            assert forall|i: int| 0 <= i < s.len() implies is_digit(#[trigger] s[i]) by {
                if i > 0 {
                    assert(s[i] == rest[i - 1]);
                }
            }
        }
        if all_digits(s) {
            assert forall|i: int| 0 <= i < rest.len() implies is_digit(#[trigger] rest[i]) by {
                assert(rest[i] == s[i + 1]);
            }
        }
    }
}

/// The views of the byte strings in `v`, in order.
pub open spec fn views(v: Seq<Vec<u8>>) -> Seq<Seq<u8>> {
    Seq::new(v.len(), |i: int| v[i]@)
}

/// Cuts `s` at every occurrence of `sep`.
pub fn split_fields(s: &[u8], sep: u8) -> (out: Vec<Vec<u8>>)
    ensures
        views(out@) == split_on(s@, sep),
{
    let mut out: Vec<Vec<u8>> = Vec::new();
    let mut cur: Vec<u8> = Vec::new();
    let mut start: usize = 0;
    let mut i: usize = 0;
    assert(s@.skip(0) =~= s@);
    assert(views(out@) + split_on(s@, sep) =~= split_on(s@, sep));
    while i < s.len()
        invariant
            start <= i <= s.len(),
            cur@ == s@.subrange(start as int, i as int),
            forall|j: int| start <= j < i ==> s@[j] != sep,
            split_on(s@, sep) == views(out@) + split_on(s@.skip(start as int), sep),
        decreases s.len() - i,
    {
        let b: u8 = s[i];
        if b == sep {
            proof {
                let rest = s@.skip(start as int);
                lemma_field_len(rest, sep, i - start);
                assert(rest.take(i - start) =~= cur@);
                assert(rest.skip(i - start + 1) =~= s@.skip(i + 1));
                assert(views(out@.push(cur)) =~= views(out@) + seq![cur@]);
            }
            out.push(cur);
            cur = Vec::new();
            start = i + 1;
        } else {
            cur.push(b);
        }
        i += 1;
        assert(cur@ =~= s@.subrange(start as int, i as int));
    }
    proof {
        let rest = s@.skip(start as int);
        lemma_field_len(rest, sep, rest.len() as int);
        assert(rest =~= cur@);
        assert(views(out@.push(cur)) =~= views(out@) + seq![cur@]);
    }
    out.push(cur);
    out
}

} // verus!
