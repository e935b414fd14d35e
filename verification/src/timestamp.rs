use vstd::prelude::*;
use vstd::string::*;

verus! {

/// A local calendar time at minute precision. The note addressing scheme is
/// unique at minute granularity, so seconds are never needed.
#[derive(Clone, Copy, Debug, PartialEq, Eq, Structural)]
pub struct Timestamp {
    pub year: u32,
    pub month: u32,
    pub day: u32,
    pub hour: u32,
    pub minute: u32,
}

/// The decimal digit character for `d` in `0..=9`.
pub open spec fn digit_char(d: int) -> char {
    if d == 0 {
        '0'
    } else if d == 1 {
        '1'
    } else if d == 2 {
        '2'
    } else if d == 3 {
        '3'
    } else if d == 4 {
        '4'
    } else if d == 5 {
        '5'
    } else if d == 6 {
        '6'
    } else if d == 7 {
        '7'
    } else if d == 8 {
        '8'
    } else {
        '9'
    }
}

/// `n` in `0..100`, zero-padded to two decimal digits.
pub open spec fn pad2(n: int) -> Seq<char> {
    seq![digit_char(n / 10), digit_char(n % 10)]
}

/// `n` in `0..10000`, zero-padded to four decimal digits.
pub open spec fn pad4(n: int) -> Seq<char> {
    seq![
        digit_char(n / 1000),
        digit_char(n / 100 % 10),
        digit_char(n / 10 % 10),
        digit_char(n % 10),
    ]
}

/// The storage path of a note created at `t`:
/// `notes/<year>/<month>/<day>/<hour>.<minute>.md`, every component
/// zero-padded.
pub open spec fn path_of(t: Timestamp) -> Seq<char> {
    "notes/"@ + pad4(t.year as int) + "/"@ + pad2(t.month as int) + "/"@ + pad2(t.day as int)
        + "/"@ + pad2(t.hour as int) + "."@ + pad2(t.minute as int) + ".md"@
}

fn digit_str(d: u32) -> (r: &'static str)
    requires
        d <= 9,
    ensures
        r@.len() == 1,
        r@[0] == digit_char(d as int),
{
    proof {
        reveal_strlit("0");
        reveal_strlit("1");
        reveal_strlit("2");
        reveal_strlit("3");
        reveal_strlit("4");
        reveal_strlit("5");
        reveal_strlit("6");
        reveal_strlit("7");
        reveal_strlit("8");
        reveal_strlit("9");
    }
    match d {
        0 => "0",
        1 => "1",
        2 => "2",
        3 => "3",
        4 => "4",
        5 => "5",
        6 => "6",
        7 => "7",
        8 => "8",
        _ => "9",
    }
}

fn push_pad2(s: &mut String, n: u32)
    requires
        n <= 99,
    ensures
        final(s)@ == old(s)@ + pad2(n as int),
{
    let d1 = digit_str(n / 10);
    let d2 = digit_str(n % 10);
    s.append(d1);
    s.append(d2);
    proof {
        assert(s@ =~= old(s)@ + pad2(n as int));
    }
}

fn push_pad4(s: &mut String, n: u32)
    requires
        n <= 9999,
    ensures
        final(s)@ == old(s)@ + pad4(n as int),
{
    let d1 = digit_str(n / 1000);
    let d2 = digit_str(n / 100 % 10);
    let d3 = digit_str(n / 10 % 10);
    let d4 = digit_str(n % 10);
    s.append(d1);
    s.append(d2);
    s.append(d3);
    s.append(d4);
    proof {
        assert(s@ =~= old(s)@ + pad4(n as int));
    }
}

impl Timestamp {
    /// The field ranges the storage scheme can hold: a four-digit year and
    /// the calendar/clock ranges of the other components.
    pub open spec fn valid(self) -> bool {
        &&& self.year <= 9999
        &&& 1 <= self.month <= 12
        &&& 1 <= self.day <= 31
        &&& self.hour <= 23
        &&& self.minute <= 59
    }

    /// A checked constructor: `Some` exactly when the components are in
    /// range.
    pub fn new(year: u32, month: u32, day: u32, hour: u32, minute: u32) -> (r: Option<Timestamp>)
        ensures
            match r {
                Some(t) => t.valid() && t == (Timestamp { year, month, day, hour, minute }),
                None => !(Timestamp { year, month, day, hour, minute }).valid(),
            },
    {
        let t = Timestamp { year, month, day, hour, minute };
        if year <= 9999 && 1 <= month && month <= 12 && 1 <= day && day <= 31 && hour <= 23
            && minute <= 59 {
            Some(t)
        } else {
            None
        }
    }

    /// The Path Deriver: the storage path of a note created at this instant,
    /// `notes/{Y:04}/{M:02}/{D:02}/{H:02}.{m:02}.md`. Deterministic, a pure
    /// function of the timestamp.
    pub fn derive_path(&self) -> (r: String)
        requires
            self.valid(),
        ensures
            r@ == path_of(*self),
    {
        let mut s = String::from_str("notes/");
        push_pad4(&mut s, self.year);
        s.append("/");
        push_pad2(&mut s, self.month);
        s.append("/");
        push_pad2(&mut s, self.day);
        s.append("/");
        push_pad2(&mut s, self.hour);
        s.append(".");
        push_pad2(&mut s, self.minute);
        s.append(".md");
        proof {
            assert(s@ =~= path_of(*self));
        }
        s
    }
}

} // verus!
