use vstd::prelude::*;
use crate::numtext::{is_ascii_digit, digits_value, all_digits, decimal_digits, decimal_text, lemma_decimal_digits};

verus! {

/// A position in the score: a bar number and a tick offset within that bar.
#[derive(PartialEq, Eq, Clone, Copy, Debug, Structural)]
pub struct Location {
    bar_no: usize,
    offset: usize,
}

/// The bar number and offset that a location text `<digits>:<digits>` denotes,
/// or `None` for any other text.
pub open spec fn location_text(s: Seq<char>) -> Option<(int, int)> {
    if exists|p: int| 0 <= p < s.len() && s[p] == ':' && all_digits(s.take(p)) && all_digits(s.skip(p + 1)) {
        let p = choose|p: int| 0 <= p < s.len() && s[p] == ':' && all_digits(s.take(p)) && all_digits(s.skip(p + 1));
        Some((digits_value(s.take(p)), digits_value(s.skip(p + 1))))
    } else {
        None
    }
}

/// The text of a location: the bar number, a colon and the offset, both
/// numbers in decimal digits.
pub open spec fn location_text_of(bar_no: nat, offset: nat) -> Seq<char> {
    decimal_digits(bar_no) + seq![':'] + decimal_digits(offset)
}

/// The text of a location reads back as that bar number and offset.
pub proof fn law_location_text_reads_back(bar_no: nat, offset: nat)
    ensures
        location_text(location_text_of(bar_no, offset)) == Some((bar_no as int, offset as int)),
{
    let a = decimal_digits(bar_no);
    let b = decimal_digits(offset);
    let s = location_text_of(bar_no, offset);
    let p = a.len() as int;
    lemma_decimal_digits(bar_no);
    lemma_decimal_digits(offset);
    assert(s.take(p) =~= a);
    assert(s.skip(p + 1) =~= b);
    assert(s[p] == ':');
    assert forall|k: int| 0 <= k < p implies is_ascii_digit(#[trigger] s[k]) by {
        assert(s[k] == a[k]);
    }
    let w = choose|w: int| 0 <= w < s.len() && s[w] == ':' && all_digits(s.take(w)) && all_digits(s.skip(w + 1));
    lemma_witness_is_first_nondigit(s, p, w);
}

/// A digit run's value is at least the value of any of its prefixes.
proof fn lemma_digits_prefix_le(s: Seq<char>, k: int)
    requires
        0 <= k <= s.len(),
        forall|i: int| 0 <= i < s.len() ==> is_ascii_digit(#[trigger] s[i]),
    ensures
        digits_value(s.take(k)) <= digits_value(s),
        0 <= digits_value(s),
    decreases s.len(),
{
    if s.len() > 0 {
        if k == s.len() {
            assert(s.take(k) =~= s);
            lemma_digits_prefix_le(s.drop_last(), k - 1);
        } else {
            lemma_digits_prefix_le(s.drop_last(), k);
            assert(s.drop_last().take(k) =~= s.take(k));
        }
    }
}

/// Reads the digits `s[from..to]` as a number that fits in `usize`.
fn read_digits(s: &str, from: usize, to: usize) -> (r: usize)
    requires
        from <= to <= s@.len(),
        forall|i: int| from <= i < to ==> is_ascii_digit(#[trigger] s@[i]),
        digits_value(s@.subrange(from as int, to as int)) <= usize::MAX,
    ensures
        r == digits_value(s@.subrange(from as int, to as int)),
{
    let mut v: usize = 0;
    let mut i: usize = from;
    while i < to
        invariant
            from <= i <= to <= s@.len(),
            forall|k: int| from <= k < to ==> is_ascii_digit(#[trigger] s@[k]),
            digits_value(s@.subrange(from as int, to as int)) <= usize::MAX,
            v == digits_value(s@.subrange(from as int, i as int)),
        decreases to - i,
    {
        let c = s.get_char(i);
        proof {
            let whole = s@.subrange(from as int, to as int);
            assert forall|k: int| 0 <= k < whole.len() implies is_ascii_digit(#[trigger] whole[k]) by {
                assert(whole[k] == s@[from + k]);
            }
            lemma_digits_prefix_le(whole, (i + 1 - from) as int);
            assert(whole.take((i + 1 - from) as int) =~= s@.subrange(from as int, i + 1));
            let next = s@.subrange(from as int, i + 1);
            assert(next.drop_last() =~= s@.subrange(from as int, i as int));
            assert(next.last() == c);
        }
        let d: usize = (c as u32 - 48) as usize;
        v = v * 10 + d;
        i = i + 1;
    }
    v
}

/// Every colon that splits a location text lies at the first non-digit.
proof fn lemma_witness_is_first_nondigit(s: Seq<char>, p: int, w: int)
    requires
        0 <= p <= s.len(),
        forall|k: int| 0 <= k < p ==> is_ascii_digit(#[trigger] s[k]),
        p < s.len() ==> !is_ascii_digit(s[p]),
        0 <= w < s.len(),
        s[w] == ':',
        all_digits(s.take(w)),
    ensures
        w == p,
{
    if w < p {
        assert(is_ascii_digit(s[w]));
    } else if w > p {
        assert(s.take(w)[p] == s[p]);
    }
}

/// Parses `<digits>:<digits>` into a location. The numbers must fit in `usize`.
/// (Letters that Unicode counts as decimal digits but that are not ASCII are
/// not accepted as digits.)
pub fn parse_location(s: &str) -> (r: Option<Location>)
    requires
        location_text(s@) matches Some((b, o)) ==> b <= usize::MAX && o <= usize::MAX,
    ensures
        match location_text(s@) {
            Some((b, o)) => r is Some && r->Some_0.bar_no_spec() == b && r->Some_0.offset_spec() == o,
            None => r is None,
        },
{
    let len = s.unicode_len();
    let mut p: usize = 0;
    let mut found = false;
    while p < len && !found
        invariant
            len == s@.len(),
            p <= len,
            forall|k: int| 0 <= k < p ==> is_ascii_digit(#[trigger] s@[k]),
            found ==> p < len && s@[p as int] == ':',
        decreases len - p + (if found { 0int } else { 1int }),
    {
        let c = s.get_char(p);
        if c == ':' {
            found = true;
        } else if 48 <= c as u32 && c as u32 <= 57 {
            p = p + 1;
        } else {
            proof {
                if location_text(s@) is Some {
                    let w = choose|w: int| 0 <= w < s@.len() && s@[w] == ':' && all_digits(s@.take(w)) && all_digits(s@.skip(w + 1));
                    lemma_witness_is_first_nondigit(s@, p as int, w);
                }
            }
            return None;
        }
    }
    if !found || p == 0 {
        proof {
            if location_text(s@) is Some {
                let w = choose|w: int| 0 <= w < s@.len() && s@[w] == ':' && all_digits(s@.take(w)) && all_digits(s@.skip(w + 1));
                lemma_witness_is_first_nondigit(s@, p as int, w);
            }
        }
        return None;
    }
    let mut q: usize = p + 1;
    while q < len
        invariant
            len == s@.len(),
            p < q <= len,
            forall|k: int| p < k < q ==> is_ascii_digit(#[trigger] s@[k]),
            forall|k: int| 0 <= k < p ==> is_ascii_digit(#[trigger] s@[k]),
            s@[p as int] == ':',
            location_text(s@) matches Some((b, o)) ==> b <= usize::MAX && o <= usize::MAX,
        decreases len - q,
    {
        let c = s.get_char(q);
        if !(48 <= c as u32 && c as u32 <= 57) {
            proof {
                if location_text(s@) is Some {
                    let w = choose|w: int| 0 <= w < s@.len() && s@[w] == ':' && all_digits(s@.take(w)) && all_digits(s@.skip(w + 1));
                    lemma_witness_is_first_nondigit(s@, p as int, w);
                    assert(s@.skip(w + 1)[q - p - 1] == s@[q as int]);
                }
            }
            return None;
        }
        q = q + 1;
    }
    if q == p + 1 {
        proof {
            if location_text(s@) is Some {
                let w = choose|w: int| 0 <= w < s@.len() && s@[w] == ':' && all_digits(s@.take(w)) && all_digits(s@.skip(w + 1));
                lemma_witness_is_first_nondigit(s@, p as int, w);
            }
        }
        return None;
    }
    proof {
        let sv = s@;
        assert forall|k: int| 0 <= k < sv.take(p as int).len() implies is_ascii_digit(#[trigger] sv.take(p as int)[k]) by {
            assert(sv.take(p as int)[k] == sv[k]);
        }
        assert forall|k: int| 0 <= k < sv.skip(p + 1).len() implies is_ascii_digit(#[trigger] sv.skip(p + 1)[k]) by {
            assert(sv.skip(p + 1)[k] == sv[p + 1 + k]);
        }
        assert(sv[p as int] == ':' && all_digits(sv.take(p as int)) && all_digits(sv.skip(p + 1)));
        let w = choose|w: int| 0 <= w < sv.len() && sv[w] == ':' && all_digits(sv.take(w)) && all_digits(sv.skip(w + 1));
        lemma_witness_is_first_nondigit(sv, p as int, w);
        assert(sv.take(p as int) =~= sv.subrange(0, p as int));
        assert(sv.skip(p + 1) =~= sv.subrange(p + 1, len as int));
    }
    let bar_no = read_digits(s, 0, p);
    let offset = read_digits(s, p + 1, len);
    Some(Location { bar_no, offset })
}

impl Location {
    pub closed spec fn bar_no_spec(self) -> int {
        self.bar_no as int
    }

    pub closed spec fn offset_spec(self) -> int {
        self.offset as int
    }

    pub fn new(bar_no: usize, offset: usize) -> (r: Location)
        ensures
            r.bar_no_spec() == bar_no,
            r.offset_spec() == offset,
    {
        Location { bar_no, offset }
    }

    pub fn bar_no(&self) -> (r: usize)
        ensures
            r == self.bar_no_spec(),
    {
        self.bar_no
    }

    pub fn offset(&self) -> (r: usize)
        ensures
            r == self.offset_spec(),
    {
        self.offset
    }

    /// The text `<bar>:<offset>` of this location, both numbers in decimal.
    pub fn to_text(&self) -> (r: String)
        ensures
            r@ == location_text_of(self.bar_no_spec() as nat, self.offset_spec() as nat),
    {
        let colon = ":";
        proof {
            reveal_strlit(":");
        }
        let bar = decimal_text(self.bar_no as u64);
        let offset = decimal_text(self.offset as u64);
        bar.concat(colon).concat(offset.as_str())
    }

    /// Parses `<digits>:<digits>` (see `parse_location`).
    pub fn parse(s: &str) -> (r: Option<Location>)
        requires
            location_text(s@) matches Some((b, o)) ==> b <= usize::MAX && o <= usize::MAX,
        ensures
            match location_text(s@) {
                Some((b, o)) => r is Some && r->Some_0.bar_no_spec() == b && r->Some_0.offset_spec() == o,
                None => r is None,
            },
    {
        parse_location(s)
    }
}

} // verus!
