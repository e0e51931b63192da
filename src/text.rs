use vstd::prelude::*;
use vstd::string::{StrSliceExecFns, StringExecFns};

verus! {

/// Characters with the Unicode `White_Space` property.
pub open spec fn is_white_space(c: char) -> bool {
    let u = c as int;
    ||| 0x09 <= u <= 0x0d
    ||| u == 0x20
    ||| u == 0x85
    ||| u == 0xa0
    ||| u == 0x1680
    ||| 0x2000 <= u <= 0x200a
    ||| u == 0x2028
    ||| u == 0x2029
    ||| u == 0x202f
    ||| u == 0x205f
    ||| u == 0x3000
}

/// Whether `c` has the Unicode `White_Space` property.
pub fn white_space(c: char) -> (r: bool)
    ensures
        r == is_white_space(c),
{
    let u = c as u32;
    (0x09 <= u && u <= 0x0d) || u == 0x20 || u == 0x85 || u == 0xa0 || u == 0x1680 || (0x2000
        <= u && u <= 0x200a) || u == 0x2028 || u == 0x2029 || u == 0x202f || u == 0x205f || u
        == 0x3000
}

/// A text that is empty or holds only white space.
pub open spec fn is_blank(s: Seq<char>) -> bool {
    forall|i: int| 0 <= i < s.len() ==> is_white_space(#[trigger] s[i])
}

/// Whether `s` is empty or holds only white space.
pub fn blank(s: &str) -> (r: bool)
    ensures
        r == is_blank(s@),
{
    let n = s.unicode_len();
    let mut i: usize = 0;
    while i < n
        invariant
            n == s@.len(),
            i <= n,
            forall|k: int| 0 <= k < i ==> is_white_space(#[trigger] s@[k]),
        decreases n - i,
    {
        if !white_space(s.get_char(i)) {
            return false;
        }
        i = i + 1;
    }
    true
}

/// Strict lexicographic order of texts by code point, which is also the byte
/// order of their UTF-8 encodings (the order of `str`'s `Ord`).
pub open spec fn text_lt(a: Seq<char>, b: Seq<char>) -> bool
    decreases a.len(),
{
    if b.len() == 0 {
        false
    } else if a.len() == 0 {
        true
    } else if a[0] != b[0] {
        (a[0] as int) < (b[0] as int)
    } else {
        text_lt(a.drop_first(), b.drop_first())
    }
}

pub proof fn lemma_text_lt_irreflexive(a: Seq<char>)
    ensures
        !text_lt(a, a),
    decreases a.len(),
{
    if a.len() > 0 {
        lemma_text_lt_irreflexive(a.drop_first());
    }
}

pub proof fn lemma_text_lt_trichotomy(a: Seq<char>, b: Seq<char>)
    ensures
        a == b || text_lt(a, b) || text_lt(b, a),
        !(text_lt(a, b) && text_lt(b, a)),
    decreases a.len(),
{
    if a.len() > 0 && b.len() > 0 {
        if a[0] == b[0] {
            lemma_text_lt_trichotomy(a.drop_first(), b.drop_first());
            if a.drop_first() == b.drop_first() {
                assert(a =~= seq![a[0]] + a.drop_first());
                assert(b =~= seq![b[0]] + b.drop_first());
            }
        } else {
            assert((a[0] as int) != (b[0] as int));
        }
    } else if a.len() == 0 && b.len() == 0 {
        assert(a =~= b);
    }
}

pub proof fn lemma_text_lt_transitive(a: Seq<char>, b: Seq<char>, c: Seq<char>)
    requires
        text_lt(a, b),
        text_lt(b, c),
    ensures
        text_lt(a, c),
    decreases a.len(),
{
    if a.len() > 0 && a[0] == b[0] && b[0] == c[0] {
        lemma_text_lt_transitive(a.drop_first(), b.drop_first(), c.drop_first());
    }
}

proof fn lemma_text_lt_skip(a: Seq<char>, b: Seq<char>, i: int)
    requires
        0 <= i <= a.len(),
        i <= b.len(),
        forall|k: int| 0 <= k < i ==> a[k] == b[k],
    ensures
        text_lt(a, b) == text_lt(a.skip(i), b.skip(i)),
    decreases i,
{
    if i > 0 {
        assert(a[0] == b[0]);
        lemma_text_lt_skip(a.drop_first(), b.drop_first(), i - 1);
        assert(a.drop_first().skip(i - 1) =~= a.skip(i));
        assert(b.drop_first().skip(i - 1) =~= b.skip(i));
    } else {
        assert(a.skip(0) =~= a);
        assert(b.skip(0) =~= b);
    }
}

/// Three-way comparison of two texts by code point: negative, zero or positive
/// as `a` sorts before, equal to or after `b`.
pub fn compare_text(a: &str, b: &str) -> (r: i8)
    ensures
        r < 0 <==> text_lt(a@, b@),
        r > 0 <==> text_lt(b@, a@),
        r == 0 <==> a@ == b@,
{
    proof {
        lemma_text_lt_trichotomy(a@, b@);
        lemma_text_lt_irreflexive(a@);
    }
    let la = a.unicode_len();
    let lb = b.unicode_len();
    let mut i: usize = 0;
    while i < la && i < lb
        invariant
            la == a@.len(),
            lb == b@.len(),
            i <= la,
            i <= lb,
            forall|k: int| 0 <= k < i ==> a@[k] == b@[k],
        decreases la - i,
    {
        let ca = a.get_char(i);
        let cb = b.get_char(i);
        if (ca as u32) < (cb as u32) {
            proof {
                lemma_text_lt_skip(a@, b@, i as int);
                lemma_text_lt_skip(b@, a@, i as int);
                assert(a@.skip(i as int)[0] == ca);
                assert(b@.skip(i as int)[0] == cb);
            }
            return -1;
        }
        if (cb as u32) < (ca as u32) {
            proof {
                lemma_text_lt_skip(a@, b@, i as int);
                lemma_text_lt_skip(b@, a@, i as int);
                assert(a@.skip(i as int)[0] == ca);
                assert(b@.skip(i as int)[0] == cb);
            }
            return 1;
        }
        i = i + 1;
    }
    proof {
        lemma_text_lt_skip(a@, b@, i as int);
        lemma_text_lt_skip(b@, a@, i as int);
    }
    if la < lb {
        -1
    } else if lb < la {
        1
    } else {
        proof {
            assert(a@ =~= b@);
        }
        0
    }
}

/// What `str::to_lowercase` makes of a text.
pub uninterp spec fn lower_of(s: Seq<char>) -> Seq<char>;

/// Relies on str::to_lowercase: the Unicode lowercase mapping of each
/// character, which depends on the text alone; an empty text stays empty.
#[verifier::external_body]
pub(crate) fn lowercase(s: &str) -> (r: String)
    ensures
        r@ == lower_of(s@),
        s@.len() == 0 ==> r@.len() == 0,
{
    s.to_lowercase()
}

/// The text without its white-space characters.
pub open spec fn squeezed(s: Seq<char>) -> Seq<char> {
    s.filter(|c: char| !is_white_space(c))
}

/// The characters of `s` that are not white space.
pub fn squeeze(s: &str) -> (r: Vec<char>)
    ensures
        r@ == squeezed(s@),
{
    let n = s.unicode_len();
    let mut r: Vec<char> = Vec::new();
    let mut i: usize = 0;
    proof {
        assert(s@.subrange(0, 0) =~= Seq::<char>::empty());
        reveal(Seq::filter);
    }
    while i < n
        invariant
            n == s@.len(),
            i <= n,
            r@ == squeezed(s@.subrange(0, i as int)),
        decreases n - i,
    {
        let c = s.get_char(i);
        proof {
            assert(s@.subrange(0, i + 1) =~= s@.subrange(0, i as int).push(c));
            s@.subrange(0, i as int).lemma_filter_push(c, |c: char| !is_white_space(c));
        }
        if !white_space(c) {
            r.push(c);
        }
        i = i + 1;
    }
    proof {
        assert(s@.subrange(0, n as int) =~= s@);
    }
    r
}

/// Whether the characters `v` spell the text `t`.
pub fn spells(v: &Vec<char>, t: &str) -> (r: bool)
    ensures
        r == (v@ == t@),
{
    let n = t.unicode_len();
    if v.len() != n {
        return false;
    }
    let mut i: usize = 0;
    while i < n
        invariant
            n == t@.len(),
            v@.len() == n,
            i <= n,
            forall|k: int| 0 <= k < i ==> v@[k] == t@[k],
        decreases n - i,
    {
        if v[i] != t.get_char(i) {
            return false;
        }
        i = i + 1;
    }
    proof {
        assert(v@ =~= t@);
    }
    true
}

pub open spec fn is_digit(c: char) -> bool {
    48 <= (c as int) <= 57
}

/// The number written by decimal digits (most significant first).
pub open spec fn digits_value(s: Seq<char>) -> int
    decreases s.len(),
{
    if s.len() == 0 {
        0
    } else {
        digits_value(s.drop_last()) * 10 + ((s.last() as int) - 48)
    }
}

/// The digits of an unsigned decimal text: one leading `+` is allowed.
pub open spec fn unsigned_digits(s: Seq<char>) -> Seq<char> {
    if s.len() > 0 && s[0] == '+' {
        s.drop_first()
    } else {
        s
    }
}

/// `s` is an unsigned decimal number (as the standard library reads one).
pub open spec fn is_unsigned_text(s: Seq<char>) -> bool {
    let d = unsigned_digits(s);
    d.len() > 0 && forall|i: int| 0 <= i < d.len() ==> is_digit(#[trigger] d[i])
}

/// The value of an unsigned decimal text at most `max`, if it is one.
pub open spec fn unsigned_value(s: Seq<char>, max: u64) -> Option<u64> {
    if is_unsigned_text(s) && digits_value(unsigned_digits(s)) <= max {
        Some(digits_value(unsigned_digits(s)) as u64)
    } else {
        None
    }
}

proof fn lemma_digits_value_grows(s: Seq<char>, k: int)
    requires
        0 <= k <= s.len(),
        forall|i: int| 0 <= i < s.len() ==> is_digit(#[trigger] s[i]),
    ensures
        digits_value(s) >= digits_value(s.subrange(0, k)),
        digits_value(s.subrange(0, k)) >= 0,
    decreases s.len() - k,
{
    if k == s.len() {
        assert(s.subrange(0, k) =~= s);
        lemma_digits_value_nonneg(s);
    } else {
        let t = s.drop_last();
        assert forall|i: int| 0 <= i < t.len() implies is_digit(#[trigger] t[i]) by {
            assert(t[i] == s[i]);
        }
        assert(t.subrange(0, k) =~= s.subrange(0, k));
        lemma_digits_value_grows(t, k);
        assert(is_digit(s[s.len() - 1]));
    }
}

proof fn lemma_digits_value_nonneg(s: Seq<char>)
    requires
        forall|i: int| 0 <= i < s.len() ==> is_digit(#[trigger] s[i]),
    ensures
        digits_value(s) >= 0,
    decreases s.len(),
{
    if s.len() > 0 {
        let t = s.drop_last();
        assert forall|i: int| 0 <= i < t.len() implies is_digit(#[trigger] t[i]) by {
            assert(t[i] == s[i]);
        }
        lemma_digits_value_nonneg(t);
        assert(is_digit(s[s.len() - 1]));
    }
}

/// Reads an unsigned decimal number no larger than `max`.
pub fn parse_unsigned(s: &str, max: u64) -> (r: Option<u64>)
    ensures
        r == unsigned_value(s@, max),
        r matches Some(v) ==> v <= max,
{
    let n = s.unicode_len();
    let start: usize = if n > 0 && s.get_char(0) == '+' {
        1
    } else {
        0
    };
    let ghost d = unsigned_digits(s@);
    proof {
        assert(d =~= s@.subrange(start as int, n as int));
    }
    if start == n {
        return None;
    }
    let mut acc: u64 = 0;
    let mut i: usize = start;
    while i < n
        invariant
            n == s@.len(),
            start <= i <= n,
            d == s@.subrange(start as int, n as int),
            d == unsigned_digits(s@),
            forall|k: int| 0 <= k < i - start ==> is_digit(#[trigger] d[k]),
            acc as int == digits_value(d.subrange(0, i - start)),
            acc <= max,
        decreases n - i,
    {
        let c = s.get_char(i);
        assert(d[i - start] == c);
        if !((c as u32) >= 48 && (c as u32) <= 57) {
            proof {
                assert(!is_digit(d[i - start]));
            }
            return None;
        }
        let next: u128 = (acc as u128) * 10 + (c as u32 - 48) as u128;
        proof {
            let sub = d.subrange(0, i - start + 1);
            assert(sub.drop_last() =~= d.subrange(0, i - start));
            assert(sub.last() == c);
            assert(digits_value(sub) == next as int);
        }
        if next > max as u128 {
            proof {
                if forall|k: int| 0 <= k < d.len() ==> is_digit(#[trigger] d[k]) {
                    lemma_digits_value_grows(d, i - start + 1);
                    assert(digits_value(d) > max);
                }
            }
            return None;
        }
        acc = next as u64;
        i = i + 1;
    }
    proof {
        assert(d.subrange(0, n - start) =~= d);
    }
    Some(acc)
}

/// The decimal digits of `n`, most significant first, without leading zeros.
pub open spec fn decimal_of(n: nat) -> Seq<char>
    decreases n,
{
    if n < 10 {
        seq![(n + 48) as char]
    } else {
        decimal_of(n / 10).push(((n % 10) + 48) as char)
    }
}

fn digit_text(d: u64) -> (r: &'static str)
    requires
        d < 10,
    ensures
        r@ == seq![(d + 48) as char],
{
    match d {
        0 => {
            proof {
                reveal_strlit("0");
            }
            "0"
        },
        1 => {
            proof {
                reveal_strlit("1");
            }
            "1"
        },
        2 => {
            proof {
                reveal_strlit("2");
            }
            "2"
        },
        3 => {
            proof {
                reveal_strlit("3");
            }
            "3"
        },
        4 => {
            proof {
                reveal_strlit("4");
            }
            "4"
        },
        5 => {
            proof {
                reveal_strlit("5");
            }
            "5"
        },
        6 => {
            proof {
                reveal_strlit("6");
            }
            "6"
        },
        7 => {
            proof {
                reveal_strlit("7");
            }
            "7"
        },
        8 => {
            proof {
                reveal_strlit("8");
            }
            "8"
        },
        _ => {
            proof {
                reveal_strlit("9");
            }
            "9"
        },
    }
}

/// `n` written in decimal.
pub fn decimal_text(n: u64) -> (r: String)
    ensures
        r@ == decimal_of(n as nat),
    decreases n,
{
    if n < 10 {
        String::from_str(digit_text(n))
    } else {
        let mut s = decimal_text(n / 10);
        s.append(digit_text(n % 10));
        s
    }
}

/// The fields of a text between its `sep` characters (one more than there
/// are separators).
pub open spec fn split_fields(sep: char, s: Seq<char>) -> Seq<Seq<char>>
    decreases s.len(),
{
    if s.len() == 0 {
        seq![Seq::empty()]
    } else {
        let f = split_fields(sep, s.drop_last());
        if s.last() == sep {
            f.push(Seq::empty())
        } else {
            f.update(f.len() - 1, f.last().push(s.last()))
        }
    }
}

/// One to three digits, no leading zero unless the field is just `0`, at most 255.
pub open spec fn is_octet(p: Seq<char>) -> bool {
    &&& 1 <= p.len() <= 3
    &&& forall|i: int| 0 <= i < p.len() ==> is_digit(#[trigger] p[i])
    &&& p.len() > 1 ==> p[0] != '0'
    &&& digits_value(p) <= 255
}

/// The address that a dotted-quad text (as `Ipv4Addr`'s parser reads one)
/// writes, as a big-endian number.
pub open spec fn ipv4_value(s: Seq<char>) -> Option<u32> {
    let f = split_fields('.', s);
    if f.len() == 4 && is_octet(f[0]) && is_octet(f[1]) && is_octet(f[2]) && is_octet(f[3]) {
        Some(
            (digits_value(f[0]) * 16777216 + digits_value(f[1]) * 65536 + digits_value(f[2]) * 256
                + digits_value(f[3])) as u32,
        )
    } else {
        None
    }
}

proof fn lemma_fields_nonempty(sep: char, s: Seq<char>)
    ensures
        split_fields(sep, s).len() >= 1,
    decreases s.len(),
{
    if s.len() > 0 {
        lemma_fields_nonempty(sep, s.drop_last());
    }
}

pub(crate) proof fn lemma_fields_step(sep: char, s: Seq<char>, i: int)
    requires
        0 <= i < s.len(),
    ensures
        split_fields(sep, s.subrange(0, i + 1)) == if s[i] == sep {
            split_fields(sep, s.subrange(0, i)).push(Seq::empty())
        } else {
            split_fields(sep, s.subrange(0, i)).update(
                split_fields(sep, s.subrange(0, i)).len() - 1,
                split_fields(sep, s.subrange(0, i)).last().push(s[i]),
            )
        },
{
    assert(s.subrange(0, i + 1).drop_last() =~= s.subrange(0, i));
    assert(s.subrange(0, i + 1).last() == s[i]);
}

proof fn lemma_fields_prefix(sep: char, s: Seq<char>, i: int)
    requires
        0 <= i <= s.len(),
    ensures
        split_fields(sep, s.subrange(0, i)).len() <= split_fields(sep, s).len(),
        forall|k: int|
            0 <= k < split_fields(sep, s.subrange(0, i)).len() - 1 ==> #[trigger] split_fields(sep, 
                s.subrange(0, i),
            )[k] == split_fields(sep, s)[k],
    decreases s.len() - i,
{
    if i == s.len() {
        assert(s.subrange(0, i) =~= s);
    } else {
        lemma_fields_prefix(sep, s, i + 1);
        lemma_fields_step(sep, s, i);
        lemma_fields_nonempty(sep, s.subrange(0, i));
        let p = split_fields(sep, s.subrange(0, i));
        let q = split_fields(sep, s.subrange(0, i + 1));
        assert forall|k: int| 0 <= k < p.len() - 1 implies #[trigger] p[k] == split_fields(sep, s)[k] by {
            assert(q[k] == p[k]);
        }
    }
}

/// The value of the field `s[from..to]` if it is an octet.
fn octet_at(s: &str, from: usize, to: usize) -> (r: Option<u64>)
    requires
        from <= to <= s@.len(),
    ensures
        match r {
            Some(v) => is_octet(s@.subrange(from as int, to as int)) && v == digits_value(
                s@.subrange(from as int, to as int),
            ),
            None => !is_octet(s@.subrange(from as int, to as int)),
        },
{
    let ghost p = s@.subrange(from as int, to as int);
    if to - from < 1 || to - from > 3 {
        return None;
    }
    if to - from > 1 && s.get_char(from) == '0' {
        return None;
    }
    let mut v: u64 = 0;
    let mut i: usize = from;
    while i < to
        invariant
            from <= i <= to,
            to <= s@.len(),
            to - from <= 3,
            p == s@.subrange(from as int, to as int),
            forall|k: int| 0 <= k < i - from ==> is_digit(#[trigger] p[k]),
            v as int == digits_value(p.subrange(0, i - from)),
            v < 1000,
        decreases to - i,
    {
        let c = s.get_char(i);
        assert(p[i - from] == c);
        if !((c as u32) >= 48 && (c as u32) <= 57) {
            proof {
                assert(!is_digit(p[i - from]));
            }
            return None;
        }
        proof {
            let sub = p.subrange(0, i - from + 1);
            assert(sub.drop_last() =~= p.subrange(0, i - from));
            assert(sub.last() == c);
            assert(i - from < 3);
            assert(v < 100) by {
                if i - from == 0 {
                    assert(p.subrange(0, 0) =~= Seq::<char>::empty());
                } else if i - from == 1 {
                    let s1 = p.subrange(0, 1);
                    assert(s1.drop_last() =~= Seq::<char>::empty());
                    assert(s1.last() == p[0]);
                    assert(is_digit(p[0]));
                    assert(digits_value(Seq::<char>::empty()) == 0);
                    assert(digits_value(s1) == digits_value(s1.drop_last()) * 10 + ((s1.last() as int)
                        - 48));
                    assert(digits_value(s1) == (p[0] as int) - 48);
                } else {
                    let s2 = p.subrange(0, 2);
                    let s1 = p.subrange(0, 1);
                    assert(s2.drop_last() =~= s1);
                    assert(s1.drop_last() =~= Seq::<char>::empty());
                    assert(s1.last() == p[0]);
                    assert(s2.last() == p[1]);
                    assert(is_digit(p[0]));
                    assert(is_digit(p[1]));
                    assert(digits_value(Seq::<char>::empty()) == 0);
                    assert(digits_value(s1) == digits_value(s1.drop_last()) * 10 + ((s1.last() as int)
                        - 48));
                    assert(digits_value(s1) == (p[0] as int) - 48);
                    assert(digits_value(s2) == digits_value(s1) * 10 + ((p[1] as int) - 48));
                }
            }
        }
        v = v * 10 + (c as u32 - 48) as u64;
        i = i + 1;
    }
    proof {
        assert(p.subrange(0, to - from) =~= p);
    }
    if v > 255 {
        return None;
    }
    Some(v)
}

/// Reads a dotted-quad IPv4 address into a big-endian number.
pub fn parse_ipv4(s: &str) -> (r: Option<u32>)
    ensures
        r == ipv4_value(s@),
{
    let n = s.unicode_len();
    let mut done: Vec<u64> = Vec::new();
    let ghost mut fs: Seq<Seq<char>> = Seq::empty();
    let mut start: usize = 0;
    let mut i: usize = 0;
    proof {
        assert(s@.subrange(0, 0) =~= Seq::<char>::empty());
        assert(fs.push(s@.subrange(0, 0)) =~= seq![Seq::<char>::empty()]);
    }
    while i < n
        invariant
            n == s@.len(),
            start <= i <= n,
            done@.len() == fs.len(),
            fs.len() <= 3,
            forall|k: int| 0 <= k < fs.len() ==> is_octet(#[trigger] fs[k]),
            forall|k: int| 0 <= k < fs.len() ==> done@[k] == digits_value(#[trigger] fs[k]),
            split_fields('.', s@.subrange(0, i as int)) == fs.push(s@.subrange(start as int, i as int)),
        decreases n - i,
    {
        let c = s.get_char(i);
        proof {
            lemma_fields_step('.', s@, i as int);
        }
        if c == '.' {
            let o = octet_at(s, start, i);
            match o {
                None => {
                    proof {
                        lemma_fields_prefix('.', s@, i + 1);
                        let q = split_fields('.', s@.subrange(0, i + 1));
                        assert(q[fs.len() as int] == s@.subrange(start as int, i as int));
                    }
                    return None;
                },
                Some(v) => {
                    if done.len() == 3 {
                        proof {
                            lemma_fields_prefix('.', s@, i + 1);
                        }
                        return None;
                    }
                    done.push(v);
                    proof {
                        let old_fs = fs;
                        fs = fs.push(s@.subrange(start as int, i as int));
                        assert(s@.subrange(i + 1, i + 1) =~= Seq::<char>::empty());
                        assert(fs.push(s@.subrange(i + 1, i + 1)) =~= old_fs.push(
                            s@.subrange(start as int, i as int),
                        ).push(Seq::empty()));
                    }
                    start = i + 1;
                },
            }
        } else {
            proof {
                assert(s@.subrange(start as int, i + 1) =~= s@.subrange(start as int, i as int).push(
                    c,
                ));
                assert(fs.push(s@.subrange(start as int, i + 1)) =~= fs.push(
                    s@.subrange(start as int, i as int),
                ).update(fs.len() as int, s@.subrange(start as int, i as int).push(c)));
            }
        }
        i = i + 1;
    }
    proof {
        assert(s@.subrange(0, n as int) =~= s@);
    }
    let last = octet_at(s, start, n);
    match last {
        None => {
            return None;
        },
        Some(v) => {
            if done.len() != 3 {
                return None;
            }
            let a = done[0] * 16777216 + done[1] * 65536 + done[2] * 256 + v;
            Some(a as u32)
        },
    }
}

/// Index of the first `c` in `s`, or -1.
pub open spec fn char_index(s: Seq<char>, c: char) -> int
    decreases s.len(),
{
    if s.len() == 0 {
        -1
    } else {
        let r = char_index(s.drop_last(), c);
        if r >= 0 {
            r
        } else if s.last() == c {
            s.len() - 1
        } else {
            -1
        }
    }
}

/// The text before and after the first `c`, if there is one.
pub open spec fn split_once_at(s: Seq<char>, c: char) -> Option<(Seq<char>, Seq<char>)> {
    let k = char_index(s, c);
    if k >= 0 {
        Some((s.subrange(0, k), s.subrange(k + 1, s.len() as int)))
    } else {
        None
    }
}

proof fn lemma_char_index_prefix(s: Seq<char>, c: char, m: int)
    requires
        0 <= m <= s.len(),
        char_index(s.subrange(0, m), c) >= 0,
    ensures
        char_index(s, c) == char_index(s.subrange(0, m), c),
    decreases s.len() - m,
{
    if m == s.len() {
        assert(s.subrange(0, m) =~= s);
    } else {
        assert(s.drop_last().subrange(0, m) =~= s.subrange(0, m));
        lemma_char_index_prefix(s.drop_last(), c, m);
    }
}

/// Index of the first `c` in `s`.
pub fn find_char(s: &str, c: char) -> (r: Option<usize>)
    ensures
        match r {
            Some(k) => char_index(s@, c) == k as int && k < s@.len(),
            None => char_index(s@, c) == -1,
        },
{
    let n = s.unicode_len();
    let mut j: usize = 0;
    while j < n
        invariant
            n == s@.len(),
            j <= n,
            char_index(s@.subrange(0, j as int), c) == -1,
        decreases n - j,
    {
        proof {
            assert(s@.subrange(0, j + 1).drop_last() =~= s@.subrange(0, j as int));
        }
        if s.get_char(j) == c {
            proof {
                lemma_char_index_prefix(s@, c, j + 1);
            }
            return Some(j);
        }
        j = j + 1;
    }
    proof {
        assert(s@.subrange(0, n as int) =~= s@);
    }
    None
}

/// The text before and after the first `c`.
pub fn split_once(s: &str, c: char) -> (r: Option<(&str, &str)>)
    ensures
        match split_once_at(s@, c) {
            Some((a, b)) => (r matches Some((x, y)) && x@ == a && y@ == b),
            None => r is None,
        },
{
    match find_char(s, c) {
        None => None,
        Some(k) => {
            let n = s.unicode_len();
            Some((s.substring_char(0, k), s.substring_char(k + 1, n)))
        },
    }
}

/// `pat` occurs in `s` at index `i`.
pub open spec fn occurs_at(s: Seq<char>, pat: Seq<char>, i: int) -> bool {
    0 <= i && i + pat.len() <= s.len() && s.subrange(i, i + pat.len()) == pat
}

pub open spec fn is_line_stop(c: char) -> bool {
    c == '\n' || c == '<'
}

/// Length of the leading part of `t` before its first newline or `<`.
pub open spec fn line_end(t: Seq<char>) -> int
    decreases t.len(),
{
    if t.len() == 0 || is_line_stop(t[0]) {
        0
    } else {
        1 + line_end(t.drop_first())
    }
}

proof fn lemma_line_end(t: Seq<char>, j: int)
    requires
        0 <= j <= t.len(),
        forall|k: int| 0 <= k < j ==> !is_line_stop(#[trigger] t[k]),
        j == t.len() || is_line_stop(t[j]),
    ensures
        line_end(t) == j,
    decreases j,
{
    if j > 0 {
        let u = t.drop_first();
        assert forall|k: int| 0 <= k < j - 1 implies !is_line_stop(#[trigger] u[k]) by {
            assert(u[k] == t[k + 1]);
        }
        if j < t.len() {
            assert(u[j - 1] == t[j]);
        }
        lemma_line_end(u, j - 1);
        assert(!is_line_stop(t[0]));
    }
}

/// The leading part of `t` before its first newline or `<`.
pub fn first_line(t: &str) -> (r: &str)
    ensures
        r@ == t@.subrange(0, line_end(t@)),
{
    let n = t.unicode_len();
    let mut j: usize = 0;
    while j < n && !(t.get_char(j) == '\n' || t.get_char(j) == '<')
        invariant
            n == t@.len(),
            j <= n,
            forall|k: int| 0 <= k < j ==> !is_line_stop(#[trigger] t@[k]),
        decreases n - j,
    {
        j = j + 1;
    }
    proof {
        lemma_line_end(t@, j as int);
    }
    t.substring_char(0, j)
}

/// Index of the last occurrence of `pat` in `s` at or before `i`, or -1.
pub open spec fn find_back(s: Seq<char>, pat: Seq<char>, i: int) -> int
    decreases i + 1,
{
    if i < 0 {
        -1
    } else if occurs_at(s, pat, i) {
        i
    } else {
        find_back(s, pat, i - 1)
    }
}

/// Index of the last occurrence of `pat` in `s`.
pub fn find_last_text(s: &str, pat: &str) -> (r: Option<usize>)
    ensures
        match r {
            Some(i) => find_back(s@, pat@, s@.len() - pat@.len()) == i as int && i + pat@.len()
                <= s@.len(),
            None => find_back(s@, pat@, s@.len() - pat@.len()) == -1,
        },
{
    let n = s.unicode_len();
    let m = pat.unicode_len();
    if m > n {
        return None;
    }
    let mut i: usize = n - m;
    loop
        invariant
            n == s@.len(),
            m == pat@.len(),
            m <= n,
            i <= n - m,
            find_back(s@, pat@, n - m) == find_back(s@, pat@, i as int),
        decreases i,
    {
        let candidate = s.substring_char(i, i + m);
        if compare_text(candidate, pat) == 0 {
            return Some(i);
        }
        if i == 0 {
            proof {
                assert(!occurs_at(s@, pat@, 0));
                assert(find_back(s@, pat@, -1) == -1);
            }
            return None;
        }
        i = i - 1;
    }
}

} // verus!
