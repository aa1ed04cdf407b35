use vstd::prelude::*;

verus! {

/// The id that the store gives an event-log entry: milliseconds, then a sequence
/// number within that millisecond. Ids grow with every append.
#[derive(Clone, Copy, PartialEq, Eq, Structural, Debug)]
pub struct StreamId {
    pub ms: u64,
    pub seq: u64,
}

/// The order of ids: by milliseconds, then by sequence number.
pub open spec fn id_lt(a: StreamId, b: StreamId) -> bool {
    a.ms < b.ms || (a.ms == b.ms && a.seq < b.seq)
}

pub open spec fn digit_char(d: nat) -> char {
    if d == 0 {
        '0'
    } else if d == 1 {
        '1'
    } else if d == 2 {
        '2'
    } else if d == 3 {
        '3'
    } else if d == 4 {
        '4'
    } else if d == 5 {
        '5'
    } else if d == 6 {
        '6'
    } else if d == 7 {
        '7'
    } else if d == 8 {
        '8'
    } else {
        '9'
    }
}

/// The decimal digits of `n`, without leading zeros.
pub open spec fn decimal(n: nat) -> Seq<char>
    decreases n,
{
    if n < 10 {
        seq![digit_char(n)]
    } else {
        decimal(n / 10).push(digit_char(n % 10))
    }
}

/// The text form of an id: `<ms>-<seq>`.
pub open spec fn id_text(id: StreamId) -> Seq<char> {
    decimal(id.ms as nat) + seq!['-'] + decimal(id.seq as nat)
}

pub open spec fn is_digit(c: char) -> bool {
    '0' <= c && c <= '9'
}

pub open spec fn digit_value(c: char) -> nat {
    (c as u32 - '0' as u32) as nat
}

/// The number that a run of decimal digits spells.
pub open spec fn digits_value(s: Seq<char>) -> nat
    decreases s.len(),
{
    if s.len() == 0 {
        0
    } else {
        digits_value(s.drop_last()) * 10 + digit_value(s.last())
    }
}

pub open spec fn all_digits(s: Seq<char>) -> bool {
    forall|i: int| 0 <= i < s.len() ==> is_digit(#[trigger] s[i])
}

/// Whether `s` is a run of one or more decimal digits spelling at most `max`.
pub open spec fn is_number_upto(s: Seq<char>, max: nat) -> bool {
    s.len() > 0 && all_digits(s) && digits_value(s) <= max
}

/// Whether `s` spells a number that fits in 64 bits.
pub open spec fn is_number(s: Seq<char>) -> bool {
    is_number_upto(s, u64::MAX as nat)
}

/// The id that `text` spells, if it has the form `<digits>-<digits>` with both
/// numbers fitting in 64 bits.
pub open spec fn parse_id_spec(text: Seq<char>) -> Option<StreamId> {
    if exists|k: int| 0 <= k < text.len() && text[k] == '-' && is_number(text.subrange(0, k))
        && is_number(text.subrange(k + 1, text.len() as int)) {
        let k = choose|k: int|
            0 <= k < text.len() && text[k] == '-' && is_number(text.subrange(0, k)) && is_number(
                text.subrange(k + 1, text.len() as int),
            );
        Some(
            StreamId {
                ms: digits_value(text.subrange(0, k)) as u64,
                seq: digits_value(text.subrange(k + 1, text.len() as int)) as u64,
            },
        )
    } else {
        None
    }
}

fn digit_str(d: u64) -> (r: &'static str)
    requires
        d < 10,
    ensures
        r@ == seq![digit_char(d as nat)],
{
    proof {
        reveal_strlit("0");
        reveal_strlit("1");
        reveal_strlit("2");
        reveal_strlit("3");
        reveal_strlit("4");
        reveal_strlit("5");
        reveal_strlit("6");
        reveal_strlit("7");
        reveal_strlit("8");
        reveal_strlit("9");
    }
    let r = if d == 0 {
        "0"
    } else if d == 1 {
        "1"
    } else if d == 2 {
        "2"
    } else if d == 3 {
        "3"
    } else if d == 4 {
        "4"
    } else if d == 5 {
        "5"
    } else if d == 6 {
        "6"
    } else if d == 7 {
        "7"
    } else if d == 8 {
        "8"
    } else {
        "9"
    };
    assert(r@ =~= seq![digit_char(d as nat)]);
    r
}

/// Appends the decimal digits of `n`.
pub fn append_decimal(s: &mut String, n: u64)
    ensures
        final(s)@ == old(s)@ + decimal(n as nat),
    decreases n,
{
    if n >= 10 {
        append_decimal(s, n / 10);
    }
    s.append(digit_str(n % 10));
    assert(decimal(n as nat) == if n < 10 {
        seq![digit_char(n as nat)]
    } else {
        decimal((n / 10) as nat).push(digit_char((n % 10) as nat))
    });
    assert(final(s)@ =~= old(s)@ + decimal(n as nat));
}

/// Appends the decimal digits of a wide `n`.
pub fn append_decimal_wide(s: &mut String, n: u128)
    ensures
        final(s)@ == old(s)@ + decimal(n as nat),
    decreases n,
{
    if n >= 10 {
        append_decimal_wide(s, n / 10);
    }
    s.append(digit_str((n % 10) as u64));
    assert(decimal(n as nat) == if n < 10 {
        seq![digit_char(n as nat)]
    } else {
        decimal((n / 10) as nat).push(digit_char((n % 10) as nat))
    });
    assert(final(s)@ =~= old(s)@ + decimal(n as nat));
}

/// The number `text` spells, when it fits in 64 bits.
pub fn parse_decimal(text: &str) -> (r: Option<u64>)
    ensures
        r == (if is_number(text@) {
            Some(digits_value(text@) as u64)
        } else {
            None::<u64>
        }),
{
    let len = text.unicode_len();
    assert(text@.subrange(0, len as int) =~= text@);
    match parse_number(text, 0, len, u64::MAX as u128) {
        Some(v) => Some(v as u64),
        None => None,
    }
}

/// The number `text` spells, when it fits in 128 bits.
pub fn parse_decimal_wide(text: &str) -> (r: Option<u128>)
    ensures
        r == (if is_number_upto(text@, u128::MAX as nat) {
            Some(digits_value(text@) as u128)
        } else {
            None::<u128>
        }),
{
    let len = text.unicode_len();
    assert(text@.subrange(0, len as int) =~= text@);
    parse_number(text, 0, len, u128::MAX)
}

fn char_digit(c: char) -> (r: u128)
    requires
        is_digit(c),
    ensures
        r == digit_value(c),
        r < 10,
{
    (c as u32 - '0' as u32) as u128
}

proof fn lemma_digits_push(s: Seq<char>, c: char)
    ensures
        digits_value(s.push(c)) == digits_value(s) * 10 + digit_value(c),
{
    assert(s.push(c).drop_last() =~= s);
}

/// A prefix of a run of digits spells no more than the whole run.
proof fn lemma_prefix_value_le(s: Seq<char>, k: int)
    requires
        all_digits(s),
        0 <= k <= s.len(),
    ensures
        digits_value(s.subrange(0, k)) <= digits_value(s),
    decreases s.len(),
{
    if k < s.len() {
        let p = s.drop_last();
        assert forall|i: int| 0 <= i < p.len() implies is_digit(#[trigger] p[i]) by {
            assert(p[i] == s[i]);
        }
        lemma_prefix_value_le(p, k);
        assert(p.subrange(0, k) =~= s.subrange(0, k));
    } else {
        assert(s.subrange(0, k) =~= s);
    }
}

/// Reads `text[from..to]` as a number no larger than `max`.
fn parse_number(text: &str, from: usize, to: usize, max: u128) -> (r: Option<u128>)
    requires
        from <= to <= text@.len(),
        max >= 9,
    ensures
        r == (if is_number_upto(text@.subrange(from as int, to as int), max as nat) {
            Some(digits_value(text@.subrange(from as int, to as int)) as u128)
        } else {
            None::<u128>
        }),
{
    let ghost sub = text@.subrange(from as int, to as int);
    if from == to {
        return None;
    }
    let mut i: usize = from;
    let mut v: u128 = 0;
    while i < to
        invariant
            from <= i <= to <= text@.len(),
            max >= 9,
            sub == text@.subrange(from as int, to as int),
            all_digits(text@.subrange(from as int, i as int)),
            digits_value(text@.subrange(from as int, i as int)) == v,
            v <= max,
        decreases to - i,
    {
        let c = text.get_char(i);
        if !('0' <= c && c <= '9') {
            assert(sub[i - from] == c);
            return None;
        }
        let d = char_digit(c);
        let ghost s = text@.subrange(from as int, i as int);
        let ghost s2 = s.push(c);
        proof {
            assert(text@.subrange(from as int, i + 1) =~= s2);
            lemma_digits_push(s, c);
            assert forall|j: int| 0 <= j < s2.len() implies is_digit(#[trigger] s2[j]) by {
                if j < s.len() {
                    assert(s2[j] == s[j]);
                }
            }
        }
        if v > (max - d) / 10 {
            proof {
                assert(v * 10 + d > max) by (nonlinear_arith)
                    requires
                        v > (max - d) / 10,
                        d < 10,
                        max >= 9,
                ;
                if all_digits(sub) {
                    lemma_prefix_value_le(sub, i + 1 - from);
                    assert(sub.subrange(0, i + 1 - from) =~= s2);
                }
            }
            return None;
        }
        proof {
            assert(v * 10 + d <= max) by (nonlinear_arith)
                requires
                    v <= (max - d) / 10,
                    d < 10,
                    max >= 9,
            ;
        }
        v = v * 10 + d;
        i = i + 1;
    }
    Some(v)
}

/// The decimal text of a number reads back as that number.
pub proof fn lemma_decimal_reads_back(n: nat)
    ensures
        decimal(n).len() > 0,
        all_digits(decimal(n)),
        digits_value(decimal(n)) == n,
        forall|i: int| 0 <= i < decimal(n).len() ==> #[trigger] decimal(n)[i] != '-',
    decreases n,
{
    let d = (n % 10) as nat;
    assert(digit_value(digit_char(d)) == d && is_digit(digit_char(d))) by {
        assert('0' as u32 == 48);
        assert('9' as u32 == 57);
    }
    if n >= 10 {
        let p = decimal(n / 10);
        lemma_decimal_reads_back(n / 10);
        lemma_digits_push(p, digit_char(d));
        let s = p.push(digit_char(d));
        assert(decimal(n) == s);
        assert((n / 10) * 10 + n % 10 == n) by (nonlinear_arith);
        assert forall|i: int| 0 <= i < s.len() implies is_digit(#[trigger] s[i]) && s[i] != '-' by {
            if i < p.len() {
                assert(s[i] == p[i]);
            }
        }
    } else {
        let s = seq![digit_char(d)];
        assert(decimal(n) == s);
        assert(s.drop_last() =~= Seq::<char>::empty());
        assert(digits_value(s) == digits_value(s.drop_last()) * 10 + digit_value(s.last()));
    }
}

impl StreamId {
    /// Whether `self` comes before `other`.
    pub fn is_before(&self, other: &StreamId) -> (r: bool)
        ensures
            r == id_lt(*self, *other),
    {
        self.ms < other.ms || (self.ms == other.ms && self.seq < other.seq)
    }

    /// The id as `<ms>-<seq>`.
    pub fn to_text(&self) -> (r: String)
        ensures
            r@ == id_text(*self),
    {
        let mut s = String::new();
        append_decimal(&mut s, self.ms);
        s.append("-");
        append_decimal(&mut s, self.seq);
        proof {
            reveal_strlit("-");
        }
        assert(s@ =~= id_text(*self));
        s
    }

    /// Reads an id of the form `<ms>-<seq>`.
    pub fn parse(text: &str) -> (r: Option<StreamId>)
        ensures
            r == parse_id_spec(text@),
    {
        let len = text.unicode_len();
        let ghost t = text@;
        let mut k: usize = 0;
        while k < len
            invariant
                k <= len == t.len(),
                t == text@,
                forall|j: int| 0 <= j < k ==> t[j] != '-',
            ensures
                k <= len == t.len(),
                forall|j: int| 0 <= j < k ==> t[j] != '-',
                k == len || t[k as int] == '-',
            decreases len - k,
        {
            if text.get_char(k) == '-' {
                break;
            }
            k = k + 1;
        }
        if k == len {
            proof {
                lemma_no_dash_at_all(t);
            }
            return None;
        }
        let ms = parse_number(text, 0, k, u64::MAX as u128);
        let seq = parse_number(text, k + 1, len, u64::MAX as u128);
        proof {
            lemma_first_dash(t, k as int);
        }
        match (ms, seq) {
            (Some(ms), Some(seq)) => Some(StreamId { ms: ms as u64, seq: seq as u64 }),
            _ => None,
        }
    }
}

proof fn lemma_no_dash_at_all(t: Seq<char>)
    requires
        forall|j: int| 0 <= j < t.len() ==> t[j] != '-',
    ensures
        parse_id_spec(t) is None,
{
}

/// With the first dash at `k`, the id parses exactly when both sides are numbers.
proof fn lemma_first_dash(t: Seq<char>, k: int)
    requires
        0 <= k < t.len(),
        t[k] == '-',
        forall|j: int| 0 <= j < k ==> t[j] != '-',
    ensures
        parse_id_spec(t) == (if is_number(t.subrange(0, k)) && is_number(
            t.subrange(k + 1, t.len() as int),
        ) {
            Some(
                StreamId {
                    ms: digits_value(t.subrange(0, k)) as u64,
                    seq: digits_value(t.subrange(k + 1, t.len() as int)) as u64,
                },
            )
        } else {
            None
        }),
{
    if exists|j: int| 0 <= j < t.len() && t[j] == '-' && is_number(t.subrange(0, j))
        && is_number(t.subrange(j + 1, t.len() as int)) {
        let j = choose|j: int| 0 <= j < t.len() && t[j] == '-' && is_number(t.subrange(0, j))
            && is_number(t.subrange(j + 1, t.len() as int));
        if k < j {
            assert(t.subrange(0, j)[k] == t[k]);
        }
        assert(j == k);
    }
}

/// An id's text form reads back as the same id.
pub proof fn lemma_id_text_round_trip(id: StreamId)
    ensures
        parse_id_spec(id_text(id)) == Some(id),
{
    let a = decimal(id.ms as nat);
    let b = decimal(id.seq as nat);
    let t = id_text(id);
    lemma_decimal_reads_back(id.ms as nat);
    lemma_decimal_reads_back(id.seq as nat);
    let k = a.len() as int;
    assert(t[k] == '-');
    assert forall|j: int| 0 <= j < k implies t[j] != '-' by {
        assert(t[j] == a[j]);
    }
    assert(t.subrange(0, k) =~= a);
    assert(t.subrange(k + 1, t.len() as int) =~= b);
    lemma_first_dash(t, k);
}

} // verus!
