use vstd::prelude::*;
use crate::text::str_eq;

verus! {

/// A browser whose bookmark store is known.
#[derive(Clone, Copy, PartialEq, Eq, Structural, Debug)]
pub enum Browser {
    Chrome,
    Edge,
    Firefox,
}

pub open spec fn browser_name(b: Browser) -> Seq<char> {
    match b {
        Browser::Chrome => "Chrome"@,
        Browser::Edge => "Edge"@,
        Browser::Firefox => "Firefox"@,
    }
}

/// Chrome and Edge keep a JSON document, Firefox an SQLite database.
pub open spec fn browser_extension(b: Browser) -> Seq<char> {
    match b {
        Browser::Firefox => "sqlite"@,
        _ => "json"@,
    }
}

pub open spec fn browser_named(s: Seq<char>) -> Option<Browser> {
    if s == "Chrome"@ {
        Some(Browser::Chrome)
    } else if s == "Edge"@ {
        Some(Browser::Edge)
    } else if s == "Firefox"@ {
        Some(Browser::Firefox)
    } else {
        None
    }
}

/// The browsers in their fixed order.
pub open spec fn all_browsers() -> Seq<Browser> {
    seq![Browser::Chrome, Browser::Edge, Browser::Firefox]
}

impl Browser {
    /// The browser's name, which is also the name of its backup directory.
    pub fn name(&self) -> (r: &'static str)
        ensures
            r@ == browser_name(*self),
    {
        match self {
            Browser::Chrome => "Chrome",
            Browser::Edge => "Edge",
            Browser::Firefox => "Firefox",
        }
    }

    /// The extension of this browser's backup files.
    pub fn extension(&self) -> (r: &'static str)
        ensures
            r@ == browser_extension(*self),
    {
        match self {
            Browser::Firefox => "sqlite",
            _ => "json",
        }
    }

    /// The browser with the given name.
    pub fn from_name(s: &str) -> (r: Option<Browser>)
        ensures
            r == browser_named(s@),
    {
        if str_eq(s, "Chrome") {
            Some(Browser::Chrome)
        } else if str_eq(s, "Edge") {
            Some(Browser::Edge)
        } else if str_eq(s, "Firefox") {
            Some(Browser::Firefox)
        } else {
            None
        }
    }

    /// Chrome, Edge and Firefox, in this order.
    pub fn all() -> (r: Vec<Browser>)
        ensures
            r@ == all_browsers(),
    {
        let mut v: Vec<Browser> = Vec::new();
        v.push(Browser::Chrome);
        v.push(Browser::Edge);
        v.push(Browser::Firefox);
        v
    }
}

/// A local calendar date and time of day, to the second.
#[derive(Clone, Copy, PartialEq, Eq, Structural, Debug)]
pub struct LocalDateTime {
    pub year: i32,
    pub month: u32,
    pub day: u32,
    pub hour: u32,
    pub minute: u32,
    pub second: u32,
}

impl LocalDateTime {
    pub open spec fn valid(&self) -> bool {
        &&& 1 <= self.month <= 12
        &&& 1 <= self.day <= 31
        &&& self.hour <= 23
        &&& self.minute <= 59
        &&& self.second <= 59
    }
}

pub open spec fn digit_char(d: nat) -> char {
    if d == 0 {
        '0'
    } else if d == 1 {
        '1'
    } else if d == 2 {
        '2'
    } else if d == 3 {
        '3'
    } else if d == 4 {
        '4'
    } else if d == 5 {
        '5'
    } else if d == 6 {
        '6'
    } else if d == 7 {
        '7'
    } else if d == 8 {
        '8'
    } else {
        '9'
    }
}

/// The decimal digits of `n`, zero-padded on the left to at least `w`
/// digits.
pub open spec fn padded(n: nat, w: nat) -> Seq<char>
    decreases n, w,
{
    if n < 10 && w <= 1 {
        seq![digit_char(n)]
    } else {
        padded(n / 10, if w > 0 { (w - 1) as nat } else { 0 }).push(digit_char(n % 10))
    }
}

/// A year as `%Y` writes it: four digits for years 0 to 9999, otherwise a
/// sign in front (`+12345`, `-0001`).
pub open spec fn year_text(y: int) -> Seq<char> {
    if 0 <= y <= 9999 {
        padded(y as nat, 4)
    } else if y > 9999 {
        seq!['+'] + padded(y as nat, 1)
    } else {
        seq!['-'] + padded((-y) as nat, 4)
    }
}

/// A time as `YYYYMMDD_HHMMSS`.
pub open spec fn stamp_text(t: LocalDateTime) -> Seq<char> {
    year_text(t.year as int) + padded(t.month as nat, 2) + padded(t.day as nat, 2) + seq!['_']
        + padded(t.hour as nat, 2) + padded(t.minute as nat, 2) + padded(t.second as nat, 2)
}

/// The name of a backup of `b` taken at `t`: `bookmarks_<stamp>.<ext>`.
pub open spec fn backup_file_name_at(b: Browser, t: LocalDateTime) -> Seq<char> {
    "bookmarks_"@ + stamp_text(t) + "."@ + browser_extension(b)
}

fn digit_str(d: u64) -> (r: &'static str)
    requires
        d < 10,
    ensures
        r@ == seq![digit_char(d as nat)],
{
    proof {
        reveal_strlit("0");
        reveal_strlit("1");
        reveal_strlit("2");
        reveal_strlit("3");
        reveal_strlit("4");
        reveal_strlit("5");
        reveal_strlit("6");
        reveal_strlit("7");
        reveal_strlit("8");
        reveal_strlit("9");
    }
    if d == 0 {
        "0"
    } else if d == 1 {
        "1"
    } else if d == 2 {
        "2"
    } else if d == 3 {
        "3"
    } else if d == 4 {
        "4"
    } else if d == 5 {
        "5"
    } else if d == 6 {
        "6"
    } else if d == 7 {
        "7"
    } else if d == 8 {
        "8"
    } else {
        "9"
    }
}

fn push_padded(out: &mut String, n: u64, w: u64)
    ensures
        final(out)@ == old(out)@ + padded(n as nat, w as nat),
    decreases n, w,
{
    if n < 10 && w <= 1 {
        out.append(digit_str(n));
    } else {
        let w1 = if w > 0 {
            w - 1
        } else {
            0
        };
        push_padded(out, n / 10, w1);
        out.append(digit_str(n % 10));
    }
}

fn push_year(out: &mut String, y: i32)
    ensures
        final(out)@ == old(out)@ + year_text(y as int),
{
    proof {
        reveal_strlit("+");
        reveal_strlit("-");
    }
    if 0 <= y && y <= 9999 {
        push_padded(out, y as u64, 4);
    } else if y > 9999 {
        out.append("+");
        push_padded(out, y as u64, 1);
    } else {
        out.append("-");
        let m: i64 = -(y as i64);
        push_padded(out, m as u64, 4);
    }
}

impl LocalDateTime {
    /// This time as `YYYYMMDD_HHMMSS`.
    pub fn stamp(&self) -> (r: String)
        ensures
            r@ == stamp_text(*self),
    {
        let mut out = String::new();
        push_year(&mut out, self.year);
        push_padded(&mut out, self.month as u64, 2);
        push_padded(&mut out, self.day as u64, 2);
        proof {
            reveal_strlit("_");
        }
        out.append("_");
        push_padded(&mut out, self.hour as u64, 2);
        push_padded(&mut out, self.minute as u64, 2);
        push_padded(&mut out, self.second as u64, 2);
        out
    }
}

/// The file name of a backup of `b` taken at `t`, such as
/// `bookmarks_20250131_235959.json`. Two backups of one browser within the
/// same second get the same name.
pub fn backup_file_name(b: Browser, t: &LocalDateTime) -> (r: String)
    ensures
        r@ == backup_file_name_at(b, *t),
{
    let mut out = String::new();
    out.append("bookmarks_");
    let s = t.stamp();
    out.append(s.as_str());
    out.append(".");
    out.append(b.extension());
    out
}

} // verus!
