use vstd::prelude::*;

verus! {

/// The byte `'/'`, the separator between path segments.
pub const SLASH: u8 = 47;

/// The byte `'&'`, the separator between query pairs.
pub const AMP: u8 = 38;

/// The byte `'='`, the separator between a query key and its value.
pub const EQUALS: u8 = 61;

/// The byte `'%'`, which opens a query escape.
pub const PERCENT: u8 = 37;

/// The byte `'+'`, which a query component reads as a space.
pub const PLUS: u8 = 43;

/// The byte `' '`.
pub const SPACE: u8 = 32;

/// For byte vectors the deep view and the view agree.
pub broadcast proof fn lemma_bytes_deep_view(v: Vec<u8>)
    ensures
        #[trigger] v.deep_view() == v@,
{
    assert(v.deep_view() =~= v@);
}

/// Copies a byte vector.
pub fn clone_bytes(v: &Vec<u8>) -> (r: Vec<u8>)
    ensures
        r@ == v@,
{
    let mut r: Vec<u8> = Vec::new();
    append_bytes(&mut r, v.as_slice());
    proof {
        assert(r@ =~= v@);
    }
    r
}

/// Appends the bytes of `src` to `dst`.
pub fn append_bytes(dst: &mut Vec<u8>, src: &[u8])
    ensures
        final(dst)@ == old(dst)@ + src@,
{
    let mut i: usize = 0;
    while i < src.len()
        invariant
            i <= src.len(),
            dst@ == old(dst)@ + src@.take(i as int),
        decreases src.len() - i,
    {
        dst.push(src[i]);
        proof {
            assert(src@.take(i + 1) == src@.take(i as int).push(src@[i as int]));
        }
        i += 1;
    }
    proof {
        assert(src@.take(src@.len() as int) == src@);
    }
}

/// True exactly when the two byte strings hold the same bytes.
pub fn bytes_eq(a: &[u8], b: &[u8]) -> (r: bool)
    ensures
        r <==> a@ == b@,
{
    if a.len() != b.len() {
        return false;
    }
    let mut i: usize = 0;
    while i < a.len()
        invariant
            i <= a.len(),
            a@.len() == b@.len(),
            forall|j: int| 0 <= j < i ==> a@[j] == b@[j],
        decreases a.len() - i,
    {
        if a[i] != b[i] {
            return false;
        }
        i += 1;
    }
    proof {
        assert(a@ =~= b@);
    }
    true
}

/// The segments of `s` cut at every occurrence of `sep`; `n` separators
/// give `n + 1` segments, empty segments included.
pub open spec fn split_at(s: Seq<u8>, sep: u8) -> Seq<Seq<u8>>
    decreases s.len(),
{
    if s.len() == 0 {
        seq![Seq::<u8>::empty()]
    } else if s[0] == sep {
        seq![Seq::<u8>::empty()] + split_at(s.drop_first(), sep)
    } else {
        let rest = split_at(s.drop_first(), sep);
        seq![seq![s[0]] + rest[0]] + rest.drop_first()
    }
}

pub proof fn lemma_split_at_len(s: Seq<u8>, sep: u8)
    ensures
        split_at(s, sep).len() >= 1,
    decreases s.len(),
{
    if s.len() != 0 {
        lemma_split_at_len(s.drop_first(), sep);
    }
}

fn split_from(s: &[u8], i: usize, sep: u8) -> (r: Vec<Vec<u8>>)
    requires
        i <= s.len(),
    ensures
        r.deep_view() == split_at(s@.skip(i as int), sep),
        r.len() >= 1,
    decreases s.len() - i,
{
    proof {
        lemma_split_at_len(s@.skip(i as int), sep);
    }
    if i == s.len() {
        let mut r: Vec<Vec<u8>> = Vec::new();
        r.push(Vec::new());
        proof {
            assert(r.deep_view() =~~= split_at(s@.skip(i as int), sep));
        }
        r
    } else if s[i] == sep {
        let mut r = split_from(s, i + 1, sep);
        r.insert(0, Vec::new());
        proof {
            assert(s@.skip(i as int).drop_first() =~= s@.skip(i + 1));
            assert(r.deep_view() =~~= seq![Seq::<u8>::empty()] + split_at(s@.skip(i + 1), sep));
        }
        r
    } else {
        let c = s[i];
        let mut r = split_from(s, i + 1, sep);
        let mut head = r.remove(0);
        head.insert(0, c);
        r.insert(0, head);
        proof {
            let tail = split_at(s@.skip(i + 1), sep);
            assert(s@.skip(i as int).drop_first() =~= s@.skip(i + 1));
            assert(head@ =~= seq![c] + tail[0]);
            assert(r.deep_view() =~~= seq![seq![c] + tail[0]] + tail.drop_first());
        }
        r
    }
}

/// Cuts `s` at every occurrence of `sep`.
pub fn split_bytes(s: &[u8], sep: u8) -> (r: Vec<Vec<u8>>)
    ensures
        r.deep_view() == split_at(s@, sep),
        r.len() >= 1,
{
    let r = split_from(s, 0, sep);
    proof {
        assert(s@.skip(0) =~= s@);
    }
    r
}

/// The sequence `ss` with its empty elements removed, order kept.
pub open spec fn drop_empty(ss: Seq<Seq<u8>>) -> Seq<Seq<u8>>
    decreases ss.len(),
{
    if ss.len() == 0 {
        Seq::<Seq<u8>>::empty()
    } else if ss[0].len() == 0 {
        drop_empty(ss.drop_first())
    } else {
        seq![ss[0]] + drop_empty(ss.drop_first())
    }
}

/// The path split at `'/'`, with leading, trailing and doubled slashes
/// normalized away: exactly the non-empty segments, in order.
pub open spec fn path_segments_spec(path: Seq<u8>) -> Seq<Seq<u8>> {
    drop_empty(split_at(path, SLASH))
}

fn drop_empty_from(v: &Vec<Vec<u8>>, i: usize) -> (r: Vec<Vec<u8>>)
    requires
        i <= v.len(),
    ensures
        r.deep_view() == drop_empty(v.deep_view().skip(i as int)),
    decreases v.len() - i,
{
    if i == v.len() {
        let r: Vec<Vec<u8>> = Vec::new();
        proof {
            assert(r.deep_view() =~~= drop_empty(v.deep_view().skip(i as int)));
        }
        r
    } else if v[i].len() == 0 {
        let r = drop_empty_from(v, i + 1);
        proof {
            assert(v.deep_view().skip(i as int).drop_first() =~= v.deep_view().skip(i + 1));
        }
        r
    } else {
        let mut r = drop_empty_from(v, i + 1);
        let head = clone_bytes(&v[i]);
        r.insert(0, head);
        proof {
            assert(v.deep_view().skip(i as int).drop_first() =~= v.deep_view().skip(i + 1));
            assert(r.deep_view() =~~= seq![v.deep_view()[i as int]] + drop_empty(
                v.deep_view().skip(i + 1),
            ));
        }
        r
    }
}

/// Splits a request path into its non-empty segments.
pub fn path_segments(path: &[u8]) -> (r: Vec<Vec<u8>>)
    ensures
        r.deep_view() == path_segments_spec(path@),
{
    let parts = split_bytes(path, SLASH);
    let r = drop_empty_from(&parts, 0);
    proof {
        assert(parts.deep_view().skip(0) =~~= parts.deep_view());
    }
    r
}

/// True when `b` is an ASCII decimal digit.
pub open spec fn is_dec_digit(b: u8) -> bool {
    48 <= b <= 57
}

/// True when every byte of `s` is an ASCII decimal digit.
pub open spec fn all_dec_digits(s: Seq<u8>) -> bool {
    forall|i: int| 0 <= i < s.len() ==> is_dec_digit(#[trigger] s[i])
}

/// The number that the digit string `s` denotes in base ten.
pub open spec fn dec_val(s: Seq<u8>) -> nat
    decreases s.len(),
{
    if s.len() == 0 {
        0
    } else {
        dec_val(s.drop_last()) * 10 + (s.last() - 48) as nat
    }
}

/// The base-ten digit string of `n`, without leading zeros (except for zero
/// itself, written "0").
pub open spec fn dec_rep(n: nat) -> Seq<u8>
    decreases n,
{
    if n < 10 {
        seq![(48 + n) as u8]
    } else {
        dec_rep(n / 10).push((48 + n % 10) as u8)
    }
}

pub proof fn lemma_dec_rep_len(n: nat)
    ensures
        dec_rep(n).len() >= 1,
        n >= 10 ==> dec_rep(n).len() >= 2,
    decreases n,
{
    if n >= 10 {
        assert(n / 10 < n) by (nonlinear_arith)
            requires
                n >= 10,
        ;
        lemma_dec_rep_len(n / 10);
    }
}

/// Distinct numbers have distinct base-ten strings.
pub proof fn lemma_dec_rep_injective(a: nat, b: nat)
    requires
        dec_rep(a) == dec_rep(b),
    ensures
        a == b,
    decreases a,
{
    lemma_dec_rep_len(a);
    lemma_dec_rep_len(b);
    if a < 10 && b < 10 {
        assert(dec_rep(a) == seq![(48 + a) as u8]);
        assert(dec_rep(b) == seq![(48 + b) as u8]);
        assert(seq![(48 + a) as u8][0] == (48 + a) as u8);
        assert(seq![(48 + b) as u8][0] == (48 + b) as u8);
        assert((48 + a) as u8 == (48 + b) as u8);
        assert(48 + a < 256 && 48 + b < 256);
        assert(a == b);
    } else if a >= 10 && b >= 10 {
        assert(a / 10 < a) by (nonlinear_arith)
            requires
                a >= 10,
        ;
        assert(dec_rep(a) == dec_rep(a / 10).push((48 + a % 10) as u8));
        assert(dec_rep(b) == dec_rep(b / 10).push((48 + b % 10) as u8));
        assert(dec_rep(a / 10).push((48 + a % 10) as u8).last() == (48 + a % 10) as u8);
        assert(dec_rep(b / 10).push((48 + b % 10) as u8).last() == (48 + b % 10) as u8);
        assert(dec_rep(a).last() == dec_rep(b).last());
        assert(dec_rep(a / 10).push((48 + a % 10) as u8).drop_last() =~= dec_rep(a / 10));
        assert(dec_rep(b / 10).push((48 + b % 10) as u8).drop_last() =~= dec_rep(b / 10));
        assert(0 <= a % 10 < 10 && 0 <= b % 10 < 10);
        assert((48 + a % 10) as u8 == (48 + b % 10) as u8);
        assert(a % 10 == b % 10);
        lemma_dec_rep_injective(a / 10, b / 10);
        assert(a / 10 == b / 10);
        assert(a == (a / 10) * 10 + a % 10) by (nonlinear_arith);
        assert(b == (b / 10) * 10 + b % 10) by (nonlinear_arith);
        assert(a == b);
    } else if a < 10 {
        assert(dec_rep(a).len() == 1);
        assert(dec_rep(b).len() >= 2);
    } else {
        assert(dec_rep(b).len() == 1);
        assert(dec_rep(a).len() >= 2);
    }
}

/// Writes `n` in base ten.
pub fn u64_to_dec(n: u64) -> (r: Vec<u8>)
    ensures
        r@ == dec_rep(n as nat),
    decreases n,
{
    if n < 10 {
        let mut r: Vec<u8> = Vec::new();
        r.push(48 + (n as u8));
        proof {
            assert(r@ =~= dec_rep(n as nat));
        }
        r
    } else {
        proof {
            assert(n / 10 < n) by (nonlinear_arith)
                requires
                    n >= 10,
            ;
        }
        let mut r = u64_to_dec(n / 10);
        r.push(48 + ((n % 10) as u8));
        proof {
            assert((n as nat) / 10 == (n / 10) as nat);
            assert((n as nat) % 10 == (n % 10) as nat);
        }
        r
    }
}

pub proof fn lemma_dec_val_take_step(s: Seq<u8>, i: int)
    requires
        0 <= i < s.len(),
    ensures
        dec_val(s.take(i + 1)) == dec_val(s.take(i)) * 10 + (s[i] - 48) as nat,
{
    assert(s.take(i + 1).drop_last() =~= s.take(i));
    assert(s.take(i + 1).last() == s[i]);
}

pub proof fn lemma_dec_val_prefix_le(s: Seq<u8>, i: int)
    requires
        0 <= i <= s.len(),
    ensures
        dec_val(s.take(i)) <= dec_val(s),
    decreases s.len() - i,
{
    if i == s.len() {
        assert(s.take(i) =~= s);
    } else {
        lemma_dec_val_take_step(s, i);
        assert(dec_val(s.take(i)) <= dec_val(s.take(i)) * 10) by (nonlinear_arith);
        lemma_dec_val_prefix_le(s, i + 1);
    }
}

/// Reads a base-ten number: `Some` exactly when `s` is a non-empty digit
/// string whose value fits in `u32`.
pub fn parse_u32(s: &[u8]) -> (r: Option<u32>)
    ensures
        match r {
            Some(v) => s@.len() > 0 && all_dec_digits(s@) && dec_val(s@) == v as nat,
            None => s@.len() == 0 || !all_dec_digits(s@) || dec_val(s@) > u32::MAX as nat,
        },
{
    if s.len() == 0 {
        return None;
    }
    let mut acc: u64 = 0;
    let mut i: usize = 0;
    while i < s.len()
        invariant
            0 < s@.len(),
            i <= s.len(),
            all_dec_digits(s@.take(i as int)),
            acc as nat == dec_val(s@.take(i as int)),
            acc <= u32::MAX as u64,
        decreases s.len() - i,
    {
        let b = s[i];
        if b < 48 || b > 57 {
            return None;
        }
        proof {
            lemma_dec_val_take_step(s@, i as int);
            assert(all_dec_digits(s@.take(i + 1)));
        }
        acc = acc * 10 + ((b - 48) as u64);
        if acc > (u32::MAX as u64) {
            proof {
                lemma_dec_val_prefix_le(s@, i + 1);
            }
            return None;
        }
        i += 1;
    }
    proof {
        assert(s@.take(s@.len() as int) =~= s@);
    }
    Some(acc as u32)
}

} // verus!
