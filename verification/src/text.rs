//! Character-level text utilities: whitespace trimming, field and colon
//! splitting, decimal parsing and substring search, each specified over
//! `Seq<char>` and implemented as verified loops.

use vstd::prelude::*;
use vstd::string::StrSliceExecFns;

verus! {

/// Horizontal whitespace as it occurs around counter-text tokens.
pub open spec fn is_space(c: char) -> bool {
    c == ' ' || c == '\t' || c == '\r'
}

fn is_space_char(c: char) -> (r: bool)
    ensures
        r == is_space(c),
{
    c == ' ' || c == '\t' || c == '\r'
}

/// The characters of `s`, in order.
pub fn chars_of(s: &str) -> (v: Vec<char>)
    ensures
        v@ == s@,
{
    let n = s.unicode_len();
    let mut v: Vec<char> = Vec::new();
    let mut i: usize = 0;
    while i < n
        invariant
            0 <= i <= n,
            n == s@.len(),
            v@ == s@.subrange(0, i as int),
        decreases n - i,
    {
        v.push(s.get_char(i));
        proof {
            assert(v@ =~= s@.subrange(0, i + 1));
        }
        i += 1;
    }
    proof {
        assert(v@ =~= s@);
    }
    v
}

/// `s` with its leading whitespace removed.
pub open spec fn trim_front(s: Seq<char>) -> Seq<char>
    decreases s.len(),
{
    if s.len() > 0 && is_space(s[0]) {
        trim_front(s.drop_first())
    } else {
        s
    }
}

/// `s` with its trailing whitespace removed.
pub open spec fn trim_back(s: Seq<char>) -> Seq<char>
    decreases s.len(),
{
    if s.len() > 0 && is_space(s.last()) {
        trim_back(s.drop_last())
    } else {
        s
    }
}

/// `s` with leading and trailing whitespace removed.
pub open spec fn spec_trim(s: Seq<char>) -> Seq<char> {
    trim_back(trim_front(s))
}

/// Dropping exactly the leading run of whitespace yields `trim_front`.
proof fn lemma_trim_front_range(s: Seq<char>, k: int)
    requires
        0 <= k <= s.len(),
        forall|i: int| 0 <= i < k ==> is_space(s[i]),
        k == s.len() || !is_space(s[k]),
    ensures
        trim_front(s) == s.subrange(k, s.len() as int),
    decreases k,
{
    if k == 0 {
        assert(s.subrange(0, s.len() as int) =~= s);
    } else {
        let d = s.drop_first();
        assert(forall|i: int| 0 <= i < k - 1 ==> is_space(#[trigger] d[i]));
        lemma_trim_front_range(d, k - 1);
        assert(d.subrange(k - 1, d.len() as int) =~= s.subrange(k, s.len() as int));
    }
}

/// Dropping exactly the trailing run of whitespace yields `trim_back`.
proof fn lemma_trim_back_range(s: Seq<char>, k: int)
    requires
        0 <= k <= s.len(),
        forall|i: int| k <= i < s.len() ==> is_space(s[i]),
        k == 0 || !is_space(s[k - 1]),
    ensures
        trim_back(s) == s.subrange(0, k),
    decreases s.len(),
{
    if k == s.len() {
        assert(s.subrange(0, k) =~= s);
    } else {
        let d = s.drop_last();
        assert(is_space(s.last()));
        assert(forall|i: int| k <= i < d.len() ==> is_space(#[trigger] d[i]));
        lemma_trim_back_range(d, k);
        assert(d.subrange(0, k) =~= s.subrange(0, k));
    }
}

/// The bounds, within `[a, b)`, of `cs[a..b)` with surrounding
/// whitespace removed.
pub fn trim_range(cs: &Vec<char>, a: usize, b: usize) -> (r: (usize, usize))
    requires
        a <= b <= cs@.len(),
    ensures
        a <= r.0 <= r.1 <= b,
        spec_trim(cs@.subrange(a as int, b as int)) == cs@.subrange(r.0 as int, r.1 as int),
{
    let mut lo = a;
    while lo < b && is_space_char(cs[lo])
        invariant
            a <= lo <= b,
            b <= cs@.len(),
            forall|i: int| a <= i < lo ==> is_space(cs@[i]),
        decreases b - lo,
    {
        lo += 1;
    }
    let mut hi = b;
    while hi > lo && is_space_char(cs[hi - 1])
        invariant
            lo <= hi <= b,
            b <= cs@.len(),
            forall|i: int| hi <= i < b ==> is_space(cs@[i]),
        decreases hi,
    {
        hi -= 1;
    }
    proof {
        let sub = cs@.subrange(a as int, b as int);
        lemma_trim_front_range(sub, lo - a);
        let tf = cs@.subrange(lo as int, b as int);
        assert(sub.subrange(lo - a, sub.len() as int) =~= tf);
        lemma_trim_back_range(tf, hi - lo);
        assert(tf.subrange(0, hi - lo) =~= cs@.subrange(lo as int, hi as int));
    }
    (lo, hi)
}

/// The text before and after the first colon of `s`, if `s` has one.
pub open spec fn spec_split_colon(s: Seq<char>) -> Option<(Seq<char>, Seq<char>)>
    decreases s.len(),
{
    if s.len() == 0 {
        None
    } else if s[0] == ':' {
        Some((Seq::empty(), s.drop_first()))
    } else {
        match spec_split_colon(s.drop_first()) {
            None => None,
            Some(p) => Some((seq![s[0]] + p.0, p.1)),
        }
    }
}

/// A sequence without a colon splits to nothing.
proof fn lemma_split_colon_none(s: Seq<char>)
    requires
        forall|i: int| 0 <= i < s.len() ==> s[i] != ':',
    ensures
        spec_split_colon(s) is None,
    decreases s.len(),
{
    if s.len() > 0 {
        let d = s.drop_first();
        assert(forall|i: int| 0 <= i < d.len() ==> #[trigger] d[i] == s[i + 1]);
        lemma_split_colon_none(d);
    }
}

/// Splitting at the first colon position `c` yields the text on either
/// side of it.
proof fn lemma_split_colon_at(s: Seq<char>, c: int)
    requires
        0 <= c < s.len(),
        s[c] == ':',
        forall|i: int| 0 <= i < c ==> s[i] != ':',
    ensures
        spec_split_colon(s) == Some((s.subrange(0, c), s.subrange(c + 1, s.len() as int))),
    decreases c,
{
    if c == 0 {
        assert(s.subrange(0, 0) =~= Seq::<char>::empty());
        assert(s.subrange(1, s.len() as int) =~= s.drop_first());
    } else {
        let d = s.drop_first();
        assert(forall|i: int| 0 <= i < d.len() ==> #[trigger] d[i] == s[i + 1]);
        lemma_split_colon_at(d, c - 1);
        assert(seq![s[0]] + d.subrange(0, c - 1) =~= s.subrange(0, c));
        assert(d.subrange(c, d.len() as int) =~= s.subrange(c + 1, s.len() as int));
    }
}

/// The first colon in `cs[a..b)`, if any.
pub fn find_colon(cs: &Vec<char>, a: usize, b: usize) -> (r: Option<usize>)
    requires
        a <= b <= cs@.len(),
    ensures
        match r {
            Some(c) => {
                &&& a <= c < b
                &&& spec_split_colon(cs@.subrange(a as int, b as int)) == Some(
                    (cs@.subrange(a as int, c as int), cs@.subrange(c + 1, b as int)),
                )
            },
            None => spec_split_colon(cs@.subrange(a as int, b as int)) is None,
        },
{
    let mut c = a;
    while c < b
        invariant
            a <= c <= b,
            b <= cs@.len(),
            forall|i: int| a <= i < c ==> cs@[i] != ':',
        decreases b - c,
    {
        if cs[c] == ':' {
            proof {
                let sub = cs@.subrange(a as int, b as int);
                lemma_split_colon_at(sub, c - a);
                assert(sub.subrange(0, c - a) =~= cs@.subrange(a as int, c as int));
                assert(sub.subrange(c - a + 1, sub.len() as int) =~= cs@.subrange(
                    c + 1,
                    b as int,
                ));
            }
            return Some(c);
        }
        c += 1;
    }
    proof {
        let sub = cs@.subrange(a as int, b as int);
        assert(forall|i: int| 0 <= i < sub.len() ==> #[trigger] sub[i] != ':');
        lemma_split_colon_none(sub);
    }
    None
}

/// The whitespace-separated fields of `s`, continued from a partial
/// field `cur` already read.
pub open spec fn spec_fields_acc(s: Seq<char>, cur: Seq<char>) -> Seq<Seq<char>>
    decreases s.len(),
{
    if s.len() == 0 {
        if cur.len() > 0 {
            seq![cur]
        } else {
            Seq::empty()
        }
    } else if is_space(s[0]) {
        if cur.len() > 0 {
            seq![cur] + spec_fields_acc(s.drop_first(), Seq::empty())
        } else {
            spec_fields_acc(s.drop_first(), Seq::empty())
        }
    } else {
        spec_fields_acc(s.drop_first(), cur.push(s[0]))
    }
}

/// The whitespace-separated fields of `s`: the maximal runs of
/// non-whitespace characters, in order.
pub open spec fn spec_fields(s: Seq<char>) -> Seq<Seq<char>> {
    spec_fields_acc(s, Seq::empty())
}

/// The views of a split field list.
pub open spec fn field_views(fs: Seq<Vec<char>>) -> Seq<Seq<char>> {
    fs.map_values(|f: Vec<char>| f@)
}

/// Splits `cs[a..b)` into its whitespace-separated fields.
pub fn split_fields(cs: &Vec<char>, a: usize, b: usize) -> (fields: Vec<Vec<char>>)
    requires
        a <= b <= cs@.len(),
    ensures
        field_views(fields@) == spec_fields(cs@.subrange(a as int, b as int)),
{
    let ghost s_all = cs@.subrange(a as int, b as int);
    let mut fields: Vec<Vec<char>> = Vec::new();
    let mut cur: Vec<char> = Vec::new();
    let mut i = a;
    proof {
        assert(field_views(fields@) + spec_fields_acc(s_all, cur@) =~= spec_fields_acc(
            s_all,
            cur@,
        ));
    }
    while i < b
        invariant
            a <= i <= b,
            b <= cs@.len(),
            s_all == cs@.subrange(a as int, b as int),
            spec_fields(s_all) == field_views(fields@) + spec_fields_acc(
                cs@.subrange(i as int, b as int),
                cur@,
            ),
        decreases b - i,
    {
        let ghost rest = cs@.subrange(i as int, b as int);
        let ghost cur_before = cur@;
        let ghost fields_before = fields@;
        proof {
            assert(rest[0] == cs@[i as int]);
            assert(rest.drop_first() =~= cs@.subrange(i + 1, b as int));
        }
        let c = cs[i];
        if is_space_char(c) {
            if cur.len() > 0 {
                fields.push(cur);
                cur = Vec::new();
                proof {
                    assert(cur@ =~= Seq::<char>::empty());
                    assert(field_views(fields@) =~= field_views(fields_before) + seq![
                        cur_before,
                    ]);
                    assert(field_views(fields@) + spec_fields_acc(rest.drop_first(), cur@)
                        =~= field_views(fields_before) + (seq![cur_before] + spec_fields_acc(
                        rest.drop_first(),
                        Seq::empty(),
                    )));
                }
            } else {
                proof {
                    assert(cur@ =~= Seq::<char>::empty());
                }
            }
        } else {
            cur.push(c);
        }
        i += 1;
    }
    if cur.len() > 0 {
        let ghost fields_before = fields@;
        let ghost cur_before = cur@;
        fields.push(cur);
        proof {
            assert(cs@.subrange(b as int, b as int) =~= Seq::<char>::empty());
            assert(field_views(fields@) =~= field_views(fields_before) + seq![cur_before]);
        }
    } else {
        proof {
            assert(cs@.subrange(b as int, b as int) =~= Seq::<char>::empty());
            assert(field_views(fields@) + spec_fields_acc(Seq::empty(), cur@) =~= field_views(
                fields@,
            ));
        }
    }
    fields
}

/// A decimal digit.
pub open spec fn is_digit(c: char) -> bool {
    c == '0' || c == '1' || c == '2' || c == '3' || c == '4' || c == '5' || c == '6' || c == '7'
        || c == '8' || c == '9'
}

/// The value of a decimal digit.
pub open spec fn digit_val(c: char) -> nat
    recommends
        is_digit(c),
{
    if c == '0' {
        0
    } else if c == '1' {
        1
    } else if c == '2' {
        2
    } else if c == '3' {
        3
    } else if c == '4' {
        4
    } else if c == '5' {
        5
    } else if c == '6' {
        6
    } else if c == '7' {
        7
    } else if c == '8' {
        8
    } else {
        9
    }
}

/// The value of a digit string read in base ten.
pub open spec fn digits_val(s: Seq<char>) -> nat
    decreases s.len(),
{
    if s.len() == 0 {
        0
    } else {
        digits_val(s.drop_last()) * 10 + digit_val(s.last())
    }
}

/// Whether every character of `s` is a decimal digit.
pub open spec fn all_digits(s: Seq<char>) -> bool {
    forall|i: int| 0 <= i < s.len() ==> is_digit(s[i])
}

/// The number a counter field denotes: its base-ten value if the field
/// is a non-empty, all-digit string whose value fits in 64 bits, and
/// zero for any other field.
pub open spec fn spec_parse_u64_or_zero(s: Seq<char>) -> u64 {
    if s.len() > 0 && all_digits(s) && digits_val(s) <= u64::MAX {
        digits_val(s) as u64
    } else {
        0
    }
}

/// The value of a prefix never exceeds the value of the whole digit
/// string.
proof fn lemma_digits_val_prefix_le(s: Seq<char>, i: int)
    requires
        0 <= i <= s.len(),
    ensures
        digits_val(s.take(i)) <= digits_val(s),
    decreases s.len() - i,
{
    if i == s.len() {
        assert(s.take(i) =~= s);
    } else {
        assert(s.take(i + 1).drop_last() =~= s.take(i));
        assert(s.take(i + 1).last() == s[i]);
        assert(digits_val(s.take(i + 1)) == digits_val(s.take(i)) * 10 + digit_val(s[i]));
        lemma_digits_val_prefix_le(s, i + 1);
    }
}

/// Reads a counter field as a 64-bit number, yielding zero for an
/// empty, non-numeric or too-large field.
pub fn parse_u64_or_zero(f: &Vec<char>) -> (r: u64)
    ensures
        r == spec_parse_u64_or_zero(f@),
{
    let n = f.len();
    if n == 0 {
        return 0;
    }
    let mut acc: u64 = 0;
    let mut i: usize = 0;
    while i < n
        invariant
            0 <= i <= n,
            n == f@.len(),
            all_digits(f@.take(i as int)),
            acc == digits_val(f@.take(i as int)),
        decreases n - i,
    {
        let c = f[i];
        let d: u64 = if c == '0' {
            0
        } else if c == '1' {
            1
        } else if c == '2' {
            2
        } else if c == '3' {
            3
        } else if c == '4' {
            4
        } else if c == '5' {
            5
        } else if c == '6' {
            6
        } else if c == '7' {
            7
        } else if c == '8' {
            8
        } else if c == '9' {
            9
        } else {
            return 0;
        };
        proof {
            assert(f@.take(i + 1).drop_last() =~= f@.take(i as int));
            assert(f@.take(i + 1).last() == f@[i as int]);
        }
        let next = match acc.checked_mul(10) {
            Some(m) => m.checked_add(d),
            None => None,
        };
        match next {
            Some(v) => {
                acc = v;
            },
            None => {
                proof {
                    assert(digits_val(f@.take(i + 1)) > u64::MAX);
                    lemma_digits_val_prefix_le(f@, i + 1);
                }
                return 0;
            },
        }
        i += 1;
    }
    proof {
        assert(f@.take(n as int) =~= f@);
    }
    acc
}

/// `needle` occurs in `hay` starting at position `i`.
pub open spec fn spec_contains_at(hay: Seq<char>, needle: Seq<char>, i: int) -> bool {
    0 <= i && i + needle.len() <= hay.len() && hay.subrange(i, i + needle.len()) == needle
}

/// `needle` occurs somewhere in `hay` (anywhere, including the empty
/// occurrence).
pub open spec fn spec_contains(hay: Seq<char>, needle: Seq<char>) -> bool {
    exists|i: int| spec_contains_at(hay, needle, i)
}

/// Whether `needle` occurs at position `i` of `hay`.
fn match_at(hay: &Vec<char>, needle: &Vec<char>, i: usize) -> (r: bool)
    requires
        i + needle@.len() <= hay@.len(),
    ensures
        r == spec_contains_at(hay@, needle@, i as int),
{
    let h = hay.len();
    let m = needle.len();
    let mut k: usize = 0;
    while k < m
        invariant
            0 <= k <= m,
            m == needle@.len(),
            h == hay@.len(),
            i + m <= h,
            forall|l: int| 0 <= l < k ==> hay@[i + l] == needle@[l],
        decreases m - k,
    {
        if hay[i + k] != needle[k] {
            proof {
                assert(hay@.subrange(i as int, i + m) != needle@) by {
                    assert(hay@.subrange(i as int, i + m)[k as int] != needle@[k as int]);
                }
            }
            return false;
        }
        k += 1;
    }
    proof {
        assert(hay@.subrange(i as int, i + m) =~= needle@);
    }
    true
}

/// Whether `needle` occurs in `hay` as a contiguous run of characters.
pub fn contains_chars(hay: &Vec<char>, needle: &Vec<char>) -> (r: bool)
    ensures
        r == spec_contains(hay@, needle@),
{
    let h = hay.len();
    let m = needle.len();
    if m == 0 {
        proof {
            assert(hay@.subrange(0, 0) =~= needle@);
            assert(spec_contains_at(hay@, needle@, 0));
        }
        return true;
    }
    if m > h {
        proof {
            assert forall|i: int| !spec_contains_at(hay@, needle@, i) by {}
        }
        return false;
    }
    let last = h - m;
    let mut i: usize = 0;
    while i <= last
        invariant
            1 <= m <= h,
            h == hay@.len(),
            m == needle@.len(),
            last == h - m,
            0 <= i <= last + 1,
            forall|j: int| 0 <= j < i ==> !spec_contains_at(hay@, needle@, j),
        decreases last - i + 1,
    {
        if match_at(hay, needle, i) {
            return true;
        }
        i += 1;
    }
    proof {
        assert forall|j: int| !spec_contains_at(hay@, needle@, j) by {
            if 0 <= j < i {
            } else if j >= i {
                assert(j + m > h);
            }
        }
    }
    false
}

} // verus!
