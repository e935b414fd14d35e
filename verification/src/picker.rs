use vstd::prelude::*;
use vstd::string::*;
use crate::errors::NoteError;

verus! {

/// The characters that trimming typed input removes: the Unicode
/// whitespace set, the same one `str::trim` goes by.
pub open spec fn is_space(c: char) -> bool {
    let v = c as u32;
    (9 <= v && v <= 13) || v == 32 || v == 0x85 || v == 0xA0 || v == 0x1680 || (0x2000 <= v && v
        <= 0x200A) || v == 0x2028 || v == 0x2029 || v == 0x202F || v == 0x205F || v == 0x3000
}

/// `s` with leading and trailing whitespace removed.
pub open spec fn trimmed(s: Seq<char>) -> Seq<char>
    decreases s.len(),
{
    if s.len() > 0 && is_space(s.first()) {
        trimmed(s.drop_first())
    } else if s.len() > 0 && is_space(s.last()) {
        trimmed(s.drop_last())
    } else {
        s
    }
}

/// A decimal digit character.
pub open spec fn is_digit(c: char) -> bool {
    48 <= c as u32 <= 57
}

/// The value of a decimal digit character.
pub open spec fn digit_value(c: char) -> int {
    c as u32 - 48
}

/// Every character of `s` is a decimal digit.
pub open spec fn all_digits(s: Seq<char>) -> bool {
    forall|i: int| 0 <= i < s.len() ==> is_digit(#[trigger] s[i])
}

/// The number that a sequence of decimal digits denotes.
pub open spec fn dec_value(s: Seq<char>) -> int
    decreases s.len(),
{
    if s.len() == 0 {
        0
    } else {
        dec_value(s.drop_last()) * 10 + digit_value(s.last())
    }
}

/// The index that typed picker input denotes, under the grammar of parsing
/// a non-negative integer: surrounding whitespace is ignored, one leading
/// plus sign is allowed, and what remains must be one or more decimal
/// digits. Anything else denotes nothing.
pub open spec fn selection_value(s: Seq<char>) -> Option<int> {
    let t = trimmed(s);
    let d = if t.len() > 0 && t[0] == '+' {
        t.drop_first()
    } else {
        t
    };
    if d.len() > 0 && all_digits(d) {
        Some(dec_value(d))
    } else {
        None
    }
}

/// The directory entry that typed input selects from a listing, if the
/// input denotes an in-range index.
pub open spec fn selected_entry(entries: Seq<Seq<char>>, input: Seq<char>) -> Option<Seq<char>> {
    match selection_value(input) {
        Some(v) => if v < entries.len() {
            Some(entries[v])
        } else {
            None
        },
        None => None,
    }
}

proof fn lemma_trimmed_subrange(s: Seq<char>, lo: int, hi: int)
    requires
        0 <= lo <= hi <= s.len(),
        forall|i: int| 0 <= i < lo ==> is_space(#[trigger] s[i]),
        forall|i: int| hi <= i < s.len() ==> is_space(#[trigger] s[i]),
        lo < hi ==> !is_space(s[lo]) && !is_space(s[hi - 1]),
    ensures
        trimmed(s) == s.subrange(lo, hi),
    decreases s.len(),
{
    if s.len() > 0 && is_space(s.first()) {
        let s1 = s.drop_first();
        if lo > 0 {
            lemma_trimmed_subrange(s1, lo - 1, hi - 1);
            assert(s1.subrange(lo - 1, hi - 1) =~= s.subrange(lo, hi));
        } else {
            assert(lo == 0 && hi == 0);
            lemma_trimmed_subrange(s1, 0, 0);
            assert(s1.subrange(0, 0) =~= s.subrange(0, 0));
        }
    } else if s.len() > 0 && is_space(s.last()) {
        assert(hi < s.len());
        let s1 = s.drop_last();
        lemma_trimmed_subrange(s1, lo, hi);
        assert(s1.subrange(lo, hi) =~= s.subrange(lo, hi));
    } else {
        assert(lo == 0 && hi == s.len());
        assert(s.subrange(lo, hi) =~= s);
    }
}

proof fn lemma_dec_value_nonneg(s: Seq<char>)
    requires
        all_digits(s),
    ensures
        dec_value(s) >= 0,
    decreases s.len(),
{
    if s.len() > 0 {
        assert(all_digits(s.drop_last()));
        lemma_dec_value_nonneg(s.drop_last());
    }
}

proof fn lemma_dec_value_prefix(s: Seq<char>, k: int)
    requires
        all_digits(s),
        0 <= k <= s.len(),
    ensures
        dec_value(s.subrange(0, k)) <= dec_value(s),
    decreases s.len() - k,
{
    if k == s.len() {
        assert(s.subrange(0, k) =~= s);
    } else {
        let s1 = s.drop_last();
        assert(all_digits(s1));
        lemma_dec_value_prefix(s1, k);
        assert(s1.subrange(0, k) =~= s.subrange(0, k));
        lemma_dec_value_nonneg(s1);
    }
}

fn is_space_char(c: char) -> (r: bool)
    ensures
        r == is_space(c),
{
    let v = c as u32;
    (9 <= v && v <= 13) || v == 32 || v == 0x85 || v == 0xA0 || v == 0x1680 || (0x2000 <= v && v
        <= 0x200A) || v == 0x2028 || v == 0x2029 || v == 0x202F || v == 0x205F || v == 0x3000
}

fn digit_of(c: char) -> (r: Option<u32>)
    ensures
        match r {
            Some(d) => is_digit(c) && d == digit_value(c),
            None => !is_digit(c),
        },
{
    let v = c as u32;
    if 48 <= v && v <= 57 {
        Some(v - 48)
    } else {
        None
    }
}

/// Parse typed picker input as an index below `bound`, under the grammar
/// of `selection_value`: whitespace-trimmed, one optional leading plus
/// sign, then decimal digits. Returns the index when the input denotes
/// one; `None` when the input denotes nothing or an index at or past
/// `bound`.
pub fn parse_selection(input: &str, bound: usize) -> (r: Option<usize>)
    ensures
        match r {
            Some(i) => selection_value(input@) == Some(i as int) && i < bound,
            None => match selection_value(input@) {
                Some(v) => v >= bound,
                None => true,
            },
        },
{
    let n = input.unicode_len();
    let mut lo: usize = 0;
    while lo < n && is_space_char(input.get_char(lo))
        invariant
            n == input@.len(),
            lo <= n,
            forall|j: int| 0 <= j < lo ==> is_space(#[trigger] input@[j]),
        decreases n - lo,
    {
        lo += 1;
    }
    let mut hi: usize = n;
    while hi > lo && is_space_char(input.get_char(hi - 1))
        invariant
            n == input@.len(),
            lo <= hi <= n,
            forall|j: int| hi <= j < n ==> is_space(#[trigger] input@[j]),
        decreases hi,
    {
        hi -= 1;
    }
    proof {
        lemma_trimmed_subrange(input@, lo as int, hi as int);
    }
    let ghost t = input@.subrange(lo as int, hi as int);
    if lo == hi {
        return None;
    }
    let mut start = lo;
    if input.get_char(lo) == '+' {
        start = lo + 1;
    }
    let ghost d = if t.len() > 0 && t[0] == '+' {
        t.drop_first()
    } else {
        t
    };
    proof {
        assert(t[0] == input@[lo as int]);
        assert(d =~= input@.subrange(start as int, hi as int));
    }
    if start == hi {
        return None;
    }
    if bound == 0 {
        proof {
            if all_digits(d) {
                lemma_dec_value_nonneg(d);
            }
        }
        return None;
    }
    let mut acc: usize = 0;
    let mut i: usize = start;
    while i < hi
        invariant
            n == input@.len(),
            lo <= start <= i <= hi <= n,
            start < hi,
            t == input@.subrange(lo as int, hi as int),
            trimmed(input@) == t,
            t.len() > 0,
            d == (if t.len() > 0 && t[0] == '+' {
                t.drop_first()
            } else {
                t
            }),
            d == input@.subrange(start as int, hi as int),
            forall|j: int| start <= j < i ==> is_digit(#[trigger] input@[j]),
            acc == dec_value(d.subrange(0, i - start)),
            acc < bound,
        decreases hi - i,
    {
        let c = input.get_char(i);
        proof {
            assert(d[i - start] == input@[i as int]);
        }
        match digit_of(c) {
            None => {
                proof {
                    assert(!all_digits(d));
                }
                return None;
            },
            Some(dg) => {
                let ghost p = d.subrange(0, i - start + 1);
                proof {
                    assert(p.drop_last() =~= d.subrange(0, i - start));
                    assert(p.last() == d[i - start]);
                    assert(dec_value(p) == acc * 10 + digit_value(input@[i as int]));
                }
                let next = match acc.checked_mul(10) {
                    Some(m) => m.checked_add(dg as usize),
                    None => None,
                };
                match next {
                    None => {
                        proof {
                            if all_digits(d) {
                                lemma_dec_value_prefix(d, i - start + 1);
                            }
                        }
                        return None;
                    },
                    Some(v) => {
                        if v >= bound {
                            proof {
                                if all_digits(d) {
                                    lemma_dec_value_prefix(d, i - start + 1);
                                }
                            }
                            return None;
                        }
                        acc = v;
                    },
                }
            },
        }
        i += 1;
    }
    proof {
        assert(d.subrange(0, (hi - start) as int) =~= d);
        assert forall|j: int| 0 <= j < d.len() implies is_digit(#[trigger] d[j]) by {
            assert(d[j] == input@[start + j]);
        }
    }
    Some(acc)
}

/// One picker step: resolve typed input against a directory listing.
/// Returns the chosen entry; fails with `InvalidSelection` when the input
/// is unparseable or the index is out of range.
pub fn select_entry(entries: &Vec<String>, input: &str) -> (r: Result<String, NoteError>)
    ensures
        match r {
            Ok(e) => selected_entry(entries.deep_view(), input@) == Some(e@),
            Err(e) => e == NoteError::InvalidSelection && selected_entry(
                entries.deep_view(),
                input@,
            ) is None,
        },
{
    match parse_selection(input, entries.len()) {
        Some(i) => {
            let e = entries[i].clone();
            proof {
                assert(entries.deep_view()[i as int] == entries@[i as int]@);
            }
            Ok(e)
        },
        None => Err(NoteError::InvalidSelection),
    }
}

/// The path the Interactive Picker resolves, given the listing shown and
/// the input typed at each of the four levels (year, month, day, file):
/// `notes/<year>/<month>/<day>/<file>` when every selection is in range.
pub open spec fn resolved_path(listings: Seq<Seq<Seq<char>>>, inputs: Seq<Seq<char>>) -> Option<
    Seq<char>,
> {
    if listings.len() == 4 && inputs.len() == 4 {
        match (
            selected_entry(listings[0], inputs[0]),
            selected_entry(listings[1], inputs[1]),
            selected_entry(listings[2], inputs[2]),
            selected_entry(listings[3], inputs[3]),
        ) {
            (Some(a), Some(b), Some(c), Some(d)) => Some(
                "notes"@ + "/"@ + a + "/"@ + b + "/"@ + c + "/"@ + d,
            ),
            _ => None,
        }
    } else {
        None
    }
}

/// Resolve a note by walking the four hierarchy levels. `listings[k]` is
/// the directory listing shown at level `k`, `inputs[k]` what the user
/// typed there. Fails with `InvalidSelection` as soon as one level's input
/// is unparseable or out of range.
pub fn find_note(listings: &Vec<Vec<String>>, inputs: &Vec<String>) -> (r: Result<
    String,
    NoteError,
>)
    requires
        listings@.len() == 4,
        inputs@.len() == 4,
    ensures
        match r {
            Ok(p) => resolved_path(listings.deep_view(), inputs.deep_view()) == Some(p@),
            Err(e) => e == NoteError::InvalidSelection && resolved_path(
                listings.deep_view(),
                inputs.deep_view(),
            ) is None,
        },
{
    let mut selection = String::from_str("notes");
    let mut level: usize = 0;
    while level < 4
        invariant
            listings@.len() == 4,
            inputs@.len() == 4,
            level <= 4,
            forall|k: int|
                0 <= k < level ==> #[trigger] selected_entry(
                    listings.deep_view()[k],
                    inputs.deep_view()[k],
                ) is Some,
            selection@ == level_prefix(listings.deep_view(), inputs.deep_view(), level as int),
        decreases 4 - level,
    {
        let seg = match select_entry(&listings[level], inputs[level].as_str()) {
            Ok(s) => s,
            Err(e) => {
                return Err(e);
            },
        };
        selection.append("/");
        selection.append(seg.as_str());
        proof {
            assert(listings.deep_view()[level as int] == listings@[level as int].deep_view());
            assert(inputs.deep_view()[level as int] == inputs@[level as int]@);
        }
        level += 1;
    }
    proof {
        let ls = listings.deep_view();
        let ins = inputs.deep_view();
        let a = selected_entry(ls[0], ins[0])->Some_0;
        let b = selected_entry(ls[1], ins[1])->Some_0;
        let c = selected_entry(ls[2], ins[2])->Some_0;
        let d = selected_entry(ls[3], ins[3])->Some_0;
        assert(level_prefix(ls, ins, 0) == "notes"@);
        assert(level_prefix(ls, ins, 1) == level_prefix(ls, ins, 0) + "/"@ + a);
        assert(level_prefix(ls, ins, 2) == level_prefix(ls, ins, 1) + "/"@ + b);
        assert(level_prefix(ls, ins, 3) == level_prefix(ls, ins, 2) + "/"@ + c);
        assert(level_prefix(ls, ins, 4) == level_prefix(ls, ins, 3) + "/"@ + d);
        assert(selection@ =~= "notes"@ + "/"@ + a + "/"@ + b + "/"@ + c + "/"@ + d);
    }
    Ok(selection)
}

/// Join the next picker segment onto the path built so far, with the `/`
/// separator the storage layout uses.
pub fn join_segment(base: &str, seg: &str) -> (r: String)
    ensures
        r@ == base@ + "/"@ + seg@,
{
    let mut s = String::from_str(base);
    s.append("/");
    s.append(seg);
    proof {
        assert(s@ =~= base@ + "/"@ + seg@);
    }
    s
}

/// The partial picker path after the first `level` selections.
pub open spec fn level_prefix(
    listings: Seq<Seq<Seq<char>>>,
    inputs: Seq<Seq<char>>,
    level: int,
) -> Seq<char>
    decreases level,
{
    if level <= 0 {
        "notes"@
    } else {
        let e = match selected_entry(listings[level - 1], inputs[level - 1]) {
            Some(e) => e,
            None => Seq::<char>::empty(),
        };
        level_prefix(listings, inputs, level - 1) + "/"@ + e
    }
}

} // verus!
