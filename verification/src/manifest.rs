//! The failed-chunk manifest: a plain-text list of comma-separated decimal
//! chunk ids, written after a partial failure and read back to restrict a
//! retry run to exactly those ids.

use vstd::prelude::*;

use crate::textfmt;

verus! {

/// An ASCII whitespace byte (space, tab, line feed, carriage return).
pub open spec fn spec_is_ws(b: u8) -> bool {
    b == 32 || b == 9 || b == 10 || b == 13
}

/// The bytes with leading whitespace removed.
pub open spec fn spec_trim_front(s: Seq<u8>) -> Seq<u8>
    decreases s.len(),
{
    if s.len() > 0 && spec_is_ws(s[0]) {
        spec_trim_front(s.drop_first())
    } else {
        s
    }
}

/// The bytes with trailing whitespace removed.
pub open spec fn spec_trim_back(s: Seq<u8>) -> Seq<u8>
    decreases s.len(),
{
    if s.len() > 0 && spec_is_ws(s.last()) {
        spec_trim_back(s.drop_last())
    } else {
        s
    }
}

/// The bytes with whitespace removed from both ends.
pub open spec fn spec_trim(s: Seq<u8>) -> Seq<u8> {
    spec_trim_back(spec_trim_front(s))
}

/// The comma-separated pieces of the bytes, in order; empty input is one
/// empty piece, and every comma separates two pieces.
pub open spec fn spec_split_commas(s: Seq<u8>) -> Seq<Seq<u8>>
    decreases s.len(),
{
    if s.len() == 0 {
        seq![Seq::<u8>::empty()]
    } else {
        let rest = spec_split_commas(s.drop_first());
        if s[0] == 44 {
            seq![Seq::<u8>::empty()] + rest
        } else {
            seq![seq![s[0]] + rest[0]] + rest.drop_first()
        }
    }
}

/// Every byte is a decimal digit.
pub open spec fn spec_all_digits(s: Seq<u8>) -> bool {
    forall|i: int| 0 <= i < s.len() ==> 48 <= #[trigger] s[i] <= 57
}

/// The number the digit bytes spell, most significant first.
pub open spec fn spec_digits_value(s: Seq<u8>) -> int
    decreases s.len(),
{
    if s.len() == 0 {
        0
    } else {
        spec_digits_value(s.drop_last()) * 10 + (s.last() - 48)
    }
}

/// The chunk id one piece holds: its digits' value, provided the piece is
/// non-empty, all digits, and in range.
pub open spec fn spec_parse_id(s: Seq<u8>) -> Option<u32> {
    let t = spec_trim(s);
    if t.len() > 0 && spec_all_digits(t) && spec_digits_value(t) <= u32::MAX {
        Some(spec_digits_value(t) as u32)
    } else {
        None
    }
}

/// The ids of all pieces, or nothing if any piece is not an id.
pub open spec fn spec_parse_pieces(pieces: Seq<Seq<u8>>) -> Option<Seq<u32>>
    decreases pieces.len(),
{
    if pieces.len() == 0 {
        Some(Seq::empty())
    } else {
        match spec_parse_pieces(pieces.drop_last()) {
            None => None,
            Some(v) => match spec_parse_id(pieces.last()) {
                None => None,
                Some(x) => Some(v.push(x)),
            },
        }
    }
}

/// The ids a manifest holds: its trimmed text split on commas, each piece
/// trimmed and read as a decimal number.
pub open spec fn spec_parse_manifest(s: Seq<u8>) -> Option<Seq<u32>> {
    spec_parse_pieces(spec_split_commas(spec_trim(s)))
}

/// Digit strings spell non-negative numbers.
proof fn lemma_digits_value_nonneg(s: Seq<u8>)
    requires
        spec_all_digits(s),
    ensures
        spec_digits_value(s) >= 0,
    decreases s.len(),
{
    if s.len() > 0 {
        assert(spec_all_digits(s.drop_last()));
        lemma_digits_value_nonneg(s.drop_last());
    }
}

/// A digit string's value is at least the value of any of its prefixes.
proof fn lemma_digits_value_monotone(s: Seq<u8>, k: int)
    requires
        spec_all_digits(s),
        0 <= k <= s.len(),
    ensures
        spec_digits_value(s.take(k)) <= spec_digits_value(s),
    decreases s.len() - k,
{
    if k == s.len() {
        assert(s.take(k) =~= s);
    } else {
        lemma_digits_value_monotone(s, k + 1);
        assert(s.take(k + 1).drop_last() =~= s.take(k));
        assert(s.take(k + 1).last() == s[k]);
        assert(spec_all_digits(s.take(k)));
        lemma_digits_value_nonneg(s.take(k));
    }
}

/// A piece without commas splits into just itself.
proof fn lemma_split_no_comma(p: Seq<u8>)
    requires
        forall|i: int| 0 <= i < p.len() ==> #[trigger] p[i] != 44,
    ensures
        spec_split_commas(p) == seq![p],
    decreases p.len(),
{
    if p.len() == 0 {
        assert(spec_split_commas(p) =~~= seq![p]);
    } else {
        lemma_split_no_comma(p.drop_first());
        let rest = spec_split_commas(p.drop_first());
        assert(rest[0] == p.drop_first());
        assert(rest.drop_first() =~= Seq::<Seq<u8>>::empty());
        assert(seq![p[0]] + rest[0] =~= p);
        assert(spec_split_commas(p) == seq![seq![p[0]] + rest[0]] + rest.drop_first());
        assert(seq![seq![p[0]] + rest[0]] + rest.drop_first() =~~= seq![p]);
    }
}

/// Splitting text that begins with a comma-free piece, a comma, and a rest
/// yields that piece and then the split of the rest.
proof fn lemma_split_comma_append(p: Seq<u8>, r: Seq<u8>)
    requires
        forall|i: int| 0 <= i < p.len() ==> #[trigger] p[i] != 44,
    ensures
        spec_split_commas(p + seq![44u8] + r) == seq![p] + spec_split_commas(r),
    decreases p.len(),
{
    let s = p + seq![44u8] + r;
    if p.len() == 0 {
        assert(s.drop_first() =~= r);
        assert(s[0] == 44);
        assert(spec_split_commas(s) =~~= seq![p] + spec_split_commas(r));
    } else {
        lemma_split_comma_append(p.drop_first(), r);
        assert(s.drop_first() =~= p.drop_first() + seq![44u8] + r);
        let rest = spec_split_commas(s.drop_first());
        assert(rest == seq![p.drop_first()] + spec_split_commas(r));
        assert(s[0] == p[0]);
        assert(rest[0] == p.drop_first());
        assert(seq![s[0]] + rest[0] =~= p);
        assert(rest.drop_first() =~= spec_split_commas(r));
        assert(spec_split_commas(s) == seq![seq![s[0]] + rest[0]] + rest.drop_first());
        assert(seq![seq![s[0]] + rest[0]] =~~= seq![p]);
        assert(spec_split_commas(s) =~~= seq![p] + spec_split_commas(r));
    }
}

/// A piece that is not an id makes the whole list fail.
proof fn lemma_parse_pieces_none(pieces: Seq<Seq<u8>>, i: int)
    requires
        0 <= i < pieces.len(),
        spec_parse_id(pieces[i]) is None,
    ensures
        spec_parse_pieces(pieces) is None,
    decreases pieces.len(),
{
    if i == pieces.len() - 1 {
    } else {
        lemma_parse_pieces_none(pieces.drop_last(), i);
    }
}

/// The trimmed window of `s`: trimming is the same as narrowing to the first
/// and last non-whitespace bytes.
proof fn lemma_trim_front_skip(s: Seq<u8>, k: int)
    requires
        0 <= k <= s.len(),
        forall|i: int| 0 <= i < k ==> spec_is_ws(#[trigger] s[i]),
        k < s.len() ==> !spec_is_ws(s[k]),
    ensures
        spec_trim_front(s) == s.skip(k),
    decreases k,
{
    if k == 0 {
        assert(s.skip(0) =~= s);
    } else {
        assert(spec_is_ws(s[0]));
        lemma_trim_front_skip(s.drop_first(), k - 1);
        assert(s.drop_first().skip(k - 1) =~= s.skip(k));
    }
}

/// As `lemma_trim_front_skip`, from the back.
proof fn lemma_trim_back_take(s: Seq<u8>, k: int)
    requires
        0 <= k <= s.len(),
        forall|i: int| k <= i < s.len() ==> spec_is_ws(#[trigger] s[i]),
        k > 0 ==> !spec_is_ws(s[k - 1]),
    ensures
        spec_trim_back(s) == s.take(k),
    decreases s.len() - k,
{
    if k == s.len() {
        assert(s.take(k) =~= s);
    } else {
        assert(spec_is_ws(s.last()));
        lemma_trim_back_take(s.drop_last(), k);
        assert(s.drop_last().take(k) =~= s.take(k));
    }
}

/// Reads one piece as a decimal chunk id: the piece trimmed, all digits,
/// and in range.
fn parse_piece(piece: &Vec<u8>) -> (r: Option<u32>)
    ensures
        r == spec_parse_id(piece@),
{
    let n = piece.len();
    let mut a: usize = 0;
    while a < n && is_ws(piece[a])
        invariant
            n == piece@.len(),
            a <= n,
            forall|i: int| 0 <= i < a ==> spec_is_ws(#[trigger] piece@[i]),
        decreases n - a,
    {
        a = a + 1;
    }
    proof {
        lemma_trim_front_skip(piece@, a as int);
    }
    let mut b: usize = n;
    while b > a && is_ws(piece[b - 1])
        invariant
            n == piece@.len(),
            a <= b <= n,
            forall|i: int| b <= i < n ==> spec_is_ws(#[trigger] piece@[i]),
        decreases b,
    {
        b = b - 1;
    }
    let ghost front = piece@.skip(a as int);
    proof {
        assert(forall|i: int|
            b - a <= i < front.len() ==> spec_is_ws(#[trigger] front[i]));
        if b > a {
            assert(front[b - a - 1] == piece@[b - 1]);
        }
        lemma_trim_back_take(front, b - a);
        assert(spec_trim(piece@) == front.take(b - a));
        assert(front.take(b - a) =~= piece@.subrange(a as int, b as int));
    }
    let ghost t = spec_trim(piece@);
    if a == b {
        return None;
    }
    let mut value: u64 = 0;
    let mut overflow: bool = false;
    let mut j: usize = a;
    while j < b
        invariant
            n == piece@.len(),
            a <= j <= b <= n,
            a < b,
            t == spec_trim(piece@),
            t == piece@.subrange(a as int, b as int),
            spec_all_digits(t.take(j - a)),
            !overflow ==> value == spec_digits_value(t.take(j - a)) && value <= u32::MAX,
            overflow ==> spec_digits_value(t.take(j - a)) > u32::MAX,
        decreases b - j,
    {
        let c = piece[j];
        if c < 48 || c > 57 {
            proof {
                assert(t[j - a] == c);
                assert(!spec_all_digits(t));
            }
            return None;
        }
        proof {
            assert(t.take(j - a + 1).drop_last() =~= t.take(j - a));
            assert(t.take(j - a + 1).last() == t[j - a]);
            assert(t[j - a] == c);
            if !overflow {
                lemma_digits_value_nonneg(t.take(j - a));
            }
        }
        if !overflow {
            let next = value * 10 + ((c - 48) as u64);
            if next > u32::MAX as u64 {
                overflow = true;
                proof {
                    assert(spec_digits_value(t.take(j - a + 1)) == next);
                }
            } else {
                value = next;
            }
        } else {
            proof {
                assert(spec_all_digits(t.take(j - a + 1)));
                lemma_digits_value_monotone(t.take(j - a + 1), j - a);
                lemma_digits_value_nonneg(t.take(j - a + 1).take(j - a));
            }
        }
        j = j + 1;
    }
    proof {
        assert(t.take(b - a) =~= t);
    }
    if overflow {
        return None;
    }
    Some(value as u32)
}

/// An ASCII whitespace byte.
fn is_ws(b: u8) -> (r: bool)
    ensures
        r == spec_is_ws(b),
{
    b == 32 || b == 9 || b == 10 || b == 13
}

/// Reads a failed-chunk manifest: the trimmed text split on commas, each
/// piece trimmed and taken as one decimal chunk id. Nothing is returned
/// unless every piece is an id.
pub fn parse_retry_ids(text: &[u8]) -> (r: Option<Vec<u32>>)
    ensures
        match r {
            Some(ids) => spec_parse_manifest(text@) == Some(ids@),
            None => spec_parse_manifest(text@) is None,
        },
{
    let n = text.len();
    let mut a: usize = 0;
    while a < n && is_ws(text[a])
        invariant
            n == text@.len(),
            a <= n,
            forall|i: int| 0 <= i < a ==> spec_is_ws(#[trigger] text@[i]),
        decreases n - a,
    {
        a = a + 1;
    }
    proof {
        lemma_trim_front_skip(text@, a as int);
    }
    let mut b: usize = n;
    while b > a && is_ws(text[b - 1])
        invariant
            n == text@.len(),
            a <= b <= n,
            forall|i: int| b <= i < n ==> spec_is_ws(#[trigger] text@[i]),
        decreases b,
    {
        b = b - 1;
    }
    let ghost front = text@.skip(a as int);
    proof {
        assert(forall|i: int| b - a <= i < front.len() ==> spec_is_ws(#[trigger] front[i]));
        if b > a {
            assert(front[b - a - 1] == text@[b - 1]);
        }
        lemma_trim_back_take(front, b - a);
        assert(front.take(b - a) =~= text@.subrange(a as int, b as int));
    }
    let ghost t = spec_trim(text@);
    let mut ids: Vec<u32> = Vec::new();
    let mut cur: Vec<u8> = Vec::new();
    let ghost mut finished: Seq<Seq<u8>> = Seq::empty();
    let ghost mut psr: int = 0;
    proof {
        assert(t.skip(0) =~= t);
        assert(Seq::<Seq<u8>>::empty() + spec_split_commas(t) =~= spec_split_commas(t));
        assert(cur@ =~= t.subrange(0, 0));
    }
    let mut j: usize = a;
    while j < b
        invariant
            n == text@.len(),
            a <= j <= b <= n,
            t == spec_trim(text@),
            t == text@.subrange(a as int, b as int),
            0 <= psr <= j - a,
            cur@ == t.subrange(psr, j - a),
            forall|i: int| 0 <= i < cur@.len() ==> #[trigger] cur@[i] != 44,
            spec_split_commas(t) == finished + spec_split_commas(t.skip(psr)),
            spec_parse_pieces(finished) == Some(ids@),
            finished.len() == ids@.len(),
        decreases b - j,
    {
        let c = text[j];
        proof {
            assert(t[j - a] == c);
        }
        if c == 44 {
            let parsed = parse_piece(&cur);
            proof {
                assert(t.skip(psr) =~= cur@ + seq![44u8] + t.skip(j - a + 1));
                lemma_split_comma_append(cur@, t.skip(j - a + 1));
                assert(spec_split_commas(t) == finished + (seq![cur@] + spec_split_commas(
                    t.skip(j - a + 1),
                )));
                assert(finished + (seq![cur@] + spec_split_commas(t.skip(j - a + 1)))
                    =~= (finished + seq![cur@]) + spec_split_commas(t.skip(j - a + 1)));
            }
            match parsed {
                Some(id) => {
                    ids.push(id);
                    proof {
                        let f2 = finished + seq![cur@];
                        assert(f2.drop_last() =~= finished);
                        assert(f2.last() == cur@);
                        assert(spec_parse_pieces(f2) == Some(ids@));
                        finished = f2;
                        psr = j - a + 1;
                    }
                    cur = Vec::new();
                    proof {
                        assert(cur@ =~= t.subrange(psr, j - a + 1));
                    }
                },
                None => {
                    proof {
                        let pieces = spec_split_commas(t);
                        assert(pieces[finished.len() as int] == cur@);
                        lemma_parse_pieces_none(pieces, finished.len() as int);
                    }
                    return None;
                },
            }
        } else {
            cur.push(c);
            proof {
                assert(cur@ =~= t.subrange(psr, j - a + 1));
            }
        }
        j = j + 1;
    }
    let parsed = parse_piece(&cur);
    proof {
        assert(t.skip(psr) =~= cur@);
        lemma_split_no_comma(cur@);
        assert(spec_split_commas(t) == finished + seq![cur@]);
    }
    match parsed {
        Some(id) => {
            ids.push(id);
            proof {
                let f2 = finished + seq![cur@];
                assert(f2.drop_last() =~= finished);
                assert(f2.last() == cur@);
                assert(spec_parse_pieces(f2) == Some(ids@));
            }
            Some(ids)
        },
        None => {
            proof {
                let pieces = spec_split_commas(t);
                assert(pieces[finished.len() as int] == cur@);
                lemma_parse_pieces_none(pieces, finished.len() as int);
            }
            None
        },
    }
}

/// The manifest text for an id list: the decimal ids joined by commas.
pub open spec fn spec_format_ids(ids: Seq<u32>) -> Seq<char>
    decreases ids.len(),
{
    if ids.len() == 0 {
        Seq::empty()
    } else if ids.len() == 1 {
        textfmt::spec_dec(ids[0] as int)
    } else {
        spec_format_ids(ids.drop_last()) + ","@ + textfmt::spec_dec(ids.last() as int)
    }
}

/// Writes the failed-chunk manifest text: the ids as decimal numbers joined
/// by commas.
pub fn format_failed_ids(ids: &Vec<u32>) -> (s: String)
    ensures
        s@ == spec_format_ids(ids@),
{
    let mut s = String::new();
    let n = ids.len();
    let mut i: usize = 0;
    while i < n
        invariant
            n == ids@.len(),
            i <= n,
            s@ == spec_format_ids(ids@.take(i as int)),
        decreases n - i,
    {
        let ghost pre = s@;
        if i > 0 {
            s.append(",");
        }
        textfmt::push_dec(&mut s, ids[i] as u64);
        proof {
            let t = ids@.take(i + 1 as int);
            assert(t.drop_last() =~= ids@.take(i as int));
            assert(t.last() == ids@[i as int]);
            if i == 0 {
                assert(s@ =~= spec_format_ids(t));
            } else {
                assert(s@ =~= (pre + ","@) + textfmt::spec_dec(ids@[i as int] as int));
                assert(s@ =~= spec_format_ids(t));
            }
        }
        i = i + 1;
    }
    proof {
        assert(ids@.take(n as int) =~= ids@);
    }
    s
}

} // verus!
