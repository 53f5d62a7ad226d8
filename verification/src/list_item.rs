//! One directory entry, as a snapshot of the fields the listing prints:
//! name, byte size, last-modified local time, directory flag and raw
//! permission bits. The formatting of each printed field is specified and
//! verified here.

use vstd::prelude::*;
use vstd::string::*;

use crate::style::{SegView, Segment, Style};
use crate::text::{
    dec_digits, digit_char, left_aligned, lex_le, pad_to, two_digits, u64_to_string,
    u64_two_digits,
};

verus! {

/// A local calendar time, broken out to the fields the listing prints.
#[derive(Clone, Copy, PartialEq, Eq, Structural, Debug)]
pub struct Timestamp {
    pub year: i32,
    pub month: u8,
    pub day: u8,
    pub hour: u8,
    pub minute: u8,
}

impl Timestamp {
    /// The field ranges of a calendar time.
    pub open spec fn wf(self) -> bool {
        &&& 1 <= self.month <= 12
        &&& 1 <= self.day <= 31
        &&& self.hour <= 23
        &&& self.minute <= 59
    }
}

/// The timestamp as the long format prints it: `mm/dd/yy HH:MM`, every
/// field two digits, the year reduced modulo 100.
pub open spec fn spec_time(ts: Timestamp) -> Seq<char> {
    two_digits(ts.month as nat) + seq!['/'] + two_digits(ts.day as nat) + seq!['/'] + two_digits(
        (ts.year as int % 100) as nat,
    ) + seq![' '] + two_digits(ts.hour as nat) + seq![':'] + two_digits(ts.minute as nat)
}

/// The year reduced to its last two digits, also for years before 1 CE.
fn year_mod_100(y: i32) -> (r: u64)
    ensures
        r as int == (y as int) % 100,
{
    if y >= 0 {
        ((y as u64) % 100)
    } else {
        let pos: u64 = (-(y as i64)) as u64;
        let m = pos % 100;
        proof {
            assert((y as int) % 100 == (if m == 0 {
                0int
            } else {
                100 - m
            })) by (nonlinear_arith)
                requires
                    y < 0,
                    pos == -(y as int),
                    m == pos % 100,
            ;
        }
        if m == 0 {
            0
        } else {
            100 - m
        }
    }
}

/// Renders a timestamp as the long format shows it.
pub fn time_string(ts: Timestamp) -> (r: String)
    ensures
        r@ == spec_time(ts),
{
    proof {
        reveal_strlit("/");
        reveal_strlit(" ");
        reveal_strlit(":");
    }
    let mut s = u64_two_digits(ts.month as u64);
    s.append("/");
    s.append(u64_two_digits(ts.day as u64).as_str());
    s.append("/");
    s.append(u64_two_digits(year_mod_100(ts.year)).as_str());
    s.append(" ");
    s.append(u64_two_digits(ts.hour as u64).as_str());
    s.append(":");
    s.append(u64_two_digits(ts.minute as u64).as_str());
    proof {
        assert(s@ =~= spec_time(ts));
    }
    s
}

/// One permission triplet: `r`, `w`, `x` for each granted bit, `-` for
/// each missing one.
pub open spec fn spec_triplet(r: bool, w: bool, x: bool) -> Seq<char> {
    seq![
        if r {
            'r'
        } else {
            '-'
        },
        if w {
            'w'
        } else {
            '-'
        },
        if x {
            'x'
        } else {
            '-'
        },
    ]
}

/// The 9-character permission string: owner, group and other triplets,
/// computed from the nine low mode bits alone.
pub open spec fn spec_permissions(mode: u32) -> Seq<char> {
    spec_triplet(mode & 0o400 != 0, mode & 0o200 != 0, mode & 0o100 != 0) + spec_triplet(
        mode & 0o040 != 0,
        mode & 0o020 != 0,
        mode & 0o010 != 0,
    ) + spec_triplet(mode & 0o004 != 0, mode & 0o002 != 0, mode & 0o001 != 0)
}

/// The permission string is a function of the nine low mode bits: any two
/// modes that agree on them decode identically, whatever the higher bits
/// (set-uid, set-gid, sticky, file type) say.
pub proof fn lemma_permissions_of_low_bits(m1: u32, m2: u32)
    requires
        m1 & 0o777 == m2 & 0o777,
    ensures
        spec_permissions(m1) == spec_permissions(m2),
{
    assert((m1 & 0o400 == m2 & 0o400) && (m1 & 0o200 == m2 & 0o200) && (m1 & 0o100 == m2 & 0o100)
        && (m1 & 0o040 == m2 & 0o040) && (m1 & 0o020 == m2 & 0o020) && (m1 & 0o010 == m2 & 0o010)
        && (m1 & 0o004 == m2 & 0o004) && (m1 & 0o002 == m2 & 0o002) && (m1 & 0o001 == m2
        & 0o001)) by (bit_vector)
        requires
            m1 & 0o777 == m2 & 0o777,
    ;
}

/// Decodes one permission class: each of the three mask bits of `mode`
/// yields its letter or a dash.
pub fn triplet(mode: u32, read: u32, write: u32, execute: u32) -> (s: String)
    ensures
        s@ == spec_triplet(mode & read != 0, mode & write != 0, mode & execute != 0),
{
    proof {
        reveal_strlit("---");
        reveal_strlit("r--");
        reveal_strlit("-w-");
        reveal_strlit("--x");
        reveal_strlit("r-x");
        reveal_strlit("rw-");
        reveal_strlit("-wx");
        reveal_strlit("rwx");
    }
    let r = mode & read != 0;
    let w = mode & write != 0;
    let x = mode & execute != 0;
    let lit: &'static str = if !r && !w && !x {
        "---"
    } else if r && !w && !x {
        "r--"
    } else if !r && w && !x {
        "-w-"
    } else if !r && !w && x {
        "--x"
    } else if r && !w && x {
        "r-x"
    } else if r && w && !x {
        "rw-"
    } else if !r && w && x {
        "-wx"
    } else {
        "rwx"
    };
    proof {
        assert(lit@ =~= spec_triplet(r, w, x));
    }
    String::from_str(lit)
}

/// Decodes the full 9-character permission string from the raw mode bits.
pub fn parse_permissions(mode: u32) -> (s: String)
    ensures
        s@ == spec_permissions(mode),
{
    let mut s = triplet(mode, 0o400, 0o200, 0o100);
    s.append(triplet(mode, 0o040, 0o020, 0o010).as_str());
    s.append(triplet(mode, 0o004, 0o002, 0o001).as_str());
    proof {
        assert(s@ =~= spec_permissions(mode));
    }
    s
}

/// 1000 to the `k`-th power: the divisor of the `k`-th size suffix tier.
pub open spec fn pow1000(k: nat) -> nat
    decreases k,
{
    if k == 0 {
        1
    } else {
        1000 * pow1000((k - 1) as nat)
    }
}

/// The suffix letter of tier `k`: kilo, mega, ..., yotta.
pub open spec fn suffix_char(k: nat) -> char {
    if k == 1 {
        'K'
    } else if k == 2 {
        'M'
    } else if k == 3 {
        'G'
    } else if k == 4 {
        'T'
    } else if k == 5 {
        'P'
    } else if k == 6 {
        'E'
    } else if k == 7 {
        'Z'
    } else {
        'Y'
    }
}

/// A value given in tenths, rendered with one decimal place.
pub open spec fn one_decimal(t: nat) -> Seq<char> {
    dec_digits(t / 10) + seq!['.'] + seq![digit_char((t % 10) as int)]
}

/// The rendered size within suffix tier `k` or a later one. With `div` the
/// tier's divisor, a size below `10 * div` is shown with its tenths biased
/// downward near the `.05` boundary (the epsilon rule: subtract 0.0499
/// from the value before rounding to one decimal, which this integer form
/// states exactly as `floor(value * 10 + 0.001)`); a size below
/// `1000 * div` is shown with its tenths rounded to nearest, halves up.
/// Larger sizes move to the next tier; after the last tier the rendering
/// is empty.
pub open spec fn spec_size_tier(size: nat, k: nat) -> Seq<char>
    decreases 9 - k,
    when 1 <= k <= 8
{
    let div = pow1000(k);
    if size < 10 * div {
        one_decimal((size * 10000 + div) / (1000 * div)).push(suffix_char(k))
    } else if size < 1000 * div {
        one_decimal((size * 10 + div / 2) / div).push(suffix_char(k))
    } else if k == 8 {
        Seq::empty()
    } else {
        spec_size_tier(size, k + 1)
    }
}

/// The human-readable size: plain bytes below 1000, otherwise one decimal
/// place and a suffix from the tier the size falls in.
pub open spec fn spec_format_size(size: nat) -> Seq<char> {
    if size < 1000 {
        dec_digits(size) + seq!['B']
    } else {
        spec_size_tier(size, 1)
    }
}

/// The divisor of tier `k`, as a machine integer.
fn pow1000_u128(k: u64) -> (r: u128)
    requires
        1 <= k <= 8,
    ensures
        r == pow1000(k as nat),
        1000 <= r <= 1_000_000_000_000_000_000_000_000,
{
    proof {
        reveal_with_fuel(pow1000, 9);
    }
    if k == 1 {
        1000
    } else if k == 2 {
        1_000_000
    } else if k == 3 {
        1_000_000_000
    } else if k == 4 {
        1_000_000_000_000
    } else if k == 5 {
        1_000_000_000_000_000
    } else if k == 6 {
        1_000_000_000_000_000_000
    } else if k == 7 {
        1_000_000_000_000_000_000_000
    } else {
        1_000_000_000_000_000_000_000_000
    }
}

/// The suffix of tier `k` as a string.
fn suffix_str(k: u64) -> (r: &'static str)
    requires
        1 <= k <= 8,
    ensures
        r@ == seq![suffix_char(k as nat)],
{
    proof {
        reveal_strlit("K");
        reveal_strlit("M");
        reveal_strlit("G");
        reveal_strlit("T");
        reveal_strlit("P");
        reveal_strlit("E");
        reveal_strlit("Z");
        reveal_strlit("Y");
    }
    let r: &'static str = if k == 1 {
        "K"
    } else if k == 2 {
        "M"
    } else if k == 3 {
        "G"
    } else if k == 4 {
        "T"
    } else if k == 5 {
        "P"
    } else if k == 6 {
        "E"
    } else if k == 7 {
        "Z"
    } else {
        "Y"
    };
    proof {
        assert(r@ =~= seq![suffix_char(k as nat)]);
    }
    r
}

/// Renders `t` tenths with one decimal place.
fn one_decimal_string(t: u64) -> (s: String)
    ensures
        s@ == one_decimal(t as nat),
{
    proof {
        reveal_strlit(".");
    }
    let mut s = u64_to_string(t / 10);
    s.append(".");
    s.append(u64_to_string(t % 10).as_str());
    proof {
        assert(dec_digits((t % 10) as nat) =~= seq![digit_char((t % 10) as int)]);
        assert(s@ =~= one_decimal(t as nat));
    }
    s
}

/// Renders a size that has reached tier `k`.
fn size_tier(size: u64, k: u64) -> (s: String)
    requires
        1 <= k <= 8,
    ensures
        s@ == spec_size_tier(size as nat, k as nat),
    decreases 9 - k,
{
    let div: u128 = pow1000_u128(k);
    let sz = size as u128;
    if sz < 10 * div {
        let t: u128 = (sz * 10000 + div) / (1000 * div);
        proof {
            assert(t <= 100) by (nonlinear_arith)
                requires
                    t as int == ((sz as int) * 10000 + (div as int)) / (1000 * (div as int)),
                    (sz as int) < 10 * (div as int),
                    div >= 1000,
            ;
        }
        let mut s = one_decimal_string(t as u64);
        s.append(suffix_str(k));
        proof {
            assert(s@ =~= spec_size_tier(size as nat, k as nat));
        }
        s
    } else if sz < 1000 * div {
        let t: u128 = (sz * 10 + div / 2) / div;
        proof {
            assert(t <= 10000) by (nonlinear_arith)
                requires
                    t as int == ((sz as int) * 10 + (div as int) / 2) / (div as int),
                    (sz as int) < 1000 * (div as int),
                    div >= 1000,
            ;
        }
        let mut s = one_decimal_string(t as u64);
        s.append(suffix_str(k));
        proof {
            assert(s@ =~= spec_size_tier(size as nat, k as nat));
        }
        s
    } else if k == 8 {
        String::new()
    } else {
        size_tier(size, k + 1)
    }
}

/// A snapshot of one directory entry, immutable once constructed.
pub struct ListItem {
    pub file_name: String,
    pub size: u64,
    pub modified_date: Timestamp,
    pub is_dir: bool,
    pub mode: u32,
}

/// The mathematical image of an entry: the same fields with the name as a
/// character sequence.
#[verifier::ext_equal]
pub struct ListItemView {
    pub file_name: Seq<char>,
    pub size: u64,
    pub modified_date: Timestamp,
    pub is_dir: bool,
    pub mode: u32,
}

impl View for ListItem {
    type V = ListItemView;

    open spec fn view(&self) -> ListItemView {
        ListItemView {
            file_name: self.file_name@,
            size: self.size,
            modified_date: self.modified_date,
            is_dir: self.is_dir,
            mode: self.mode,
        }
    }
}

/// The smallest Unix timestamp (in seconds) that chrono can represent:
/// midnight of January 1 of its smallest year.
pub const MIN_TIMESTAMP_SECS: i64 = -8_334_601_228_800;

/// The largest Unix timestamp (in seconds) that chrono can represent:
/// the last second of December 31 of its largest year.
pub const MAX_TIMESTAMP_SECS: i64 = 8_210_266_876_799;

/// Relies on chrono: `Local.timestamp_opt(secs, 0)` turns a count of
/// non-leap seconds since the Unix epoch into local calendar time. With a
/// zero nanosecond part it succeeds exactly when the count lies in
/// chrono's representable range (`DateTime::from_timestamp` accepts
/// exactly the seconds of `NaiveDateTime::MIN ..= NaiveDateTime::MAX`,
/// and the conversion to `Local` itself never fails); the `Datelike` and
/// `Timelike` accessors give month 1..=12, day 1..=31, hour 0..=23 and
/// minute 0..=59. Which calendar time a given count maps to depends on
/// the machine's time zone, so nothing more is assumed.
#[verifier::external_body]
fn local_timestamp(secs: i64) -> (r: Option<Timestamp>)
    ensures
        r is Some <==> MIN_TIMESTAMP_SECS <= secs <= MAX_TIMESTAMP_SECS,
        r is Some ==> r.unwrap().wf(),
{
    match chrono::TimeZone::timestamp_opt(&chrono::Local, secs, 0) {
        chrono::MappedLocalTime::Single(dt) => Some(Timestamp {
            year: chrono::Datelike::year(&dt),
            month: chrono::Datelike::month(&dt) as u8,
            day: chrono::Datelike::day(&dt) as u8,
            hour: chrono::Timelike::hour(&dt) as u8,
            minute: chrono::Timelike::minute(&dt) as u8,
        }),
        _ => None,
    }
}

/// The rendered long-format detail field of an entry: permissions, the
/// size left-aligned to six columns, the timestamp left-aligned to ten,
/// each followed by one space.
pub open spec fn spec_details(v: ListItemView) -> Seq<char> {
    spec_permissions(v.mode) + seq![' '] + left_aligned(spec_format_size(v.size as nat), 6)
        + seq![' '] + left_aligned(spec_time(v.modified_date), 10) + seq![' ']
}

/// The icon segment of an entry: a glyph two columns wide with a leading
/// space, amber for directories and blue for files.
pub open spec fn spec_icon(v: ListItemView) -> SegView {
    if v.is_dir {
        SegView { style: Style::Fg { red: 227, green: 177, blue: 77 }, text: seq![' ', '\u{f74a}', ' '] }
    } else {
        SegView { style: Style::Fg { red: 65, green: 129, blue: 190 }, text: seq![' ', '\u{f723}', ' '] }
    }
}

/// The filename segments of an entry: the name left-aligned to ten
/// columns, bold and blue for a directory, then one plain space.
pub open spec fn spec_filename(v: ListItemView) -> Seq<SegView> {
    seq![
        SegView {
            style: if v.is_dir {
                Style::BoldBlue
            } else {
                Style::Plain
            },
            text: left_aligned(v.file_name, 10),
        },
        SegView { style: Style::Plain, text: seq![' '] },
    ]
}

impl ListItem {
    /// Builds the descriptor from already-decoded fields.
    pub fn from_parts(
        file_name: String,
        size: u64,
        modified_date: Timestamp,
        is_dir: bool,
        mode: u32,
    ) -> (r: ListItem)
        ensures
            r@ == (ListItemView { file_name: file_name@, size, modified_date, is_dir, mode }),
    {
        ListItem { file_name, size, modified_date, is_dir, mode }
    }

    /// Builds the descriptor for one entry from its raw metadata, with the
    /// moment of last modification given in seconds since the Unix epoch
    /// and converted to local calendar time. A descriptor is built exactly
    /// when that moment lies in chrono's representable range; its fields
    /// are the arguments, and its timestamp is a well-formed calendar
    /// time.
    pub fn new(file_name: String, size: u64, modified_secs: i64, is_dir: bool, mode: u32) -> (r:
        Option<ListItem>)
        ensures
            r is Some <==> MIN_TIMESTAMP_SECS <= modified_secs <= MAX_TIMESTAMP_SECS,
            r is Some ==> r.unwrap()@.file_name == file_name@,
            r is Some ==> r.unwrap()@.size == size,
            r is Some ==> r.unwrap()@.is_dir == is_dir,
            r is Some ==> r.unwrap()@.mode == mode,
            r is Some ==> r.unwrap()@.modified_date.wf(),
    {
        match local_timestamp(modified_secs) {
            Some(ts) => Some(ListItem::from_parts(file_name, size, ts, is_dir, mode)),
            None => None,
        }
    }

    /// A fresh descriptor with the same fields.
    pub fn duplicate(&self) -> (r: ListItem)
        ensures
            r@ == self@,
    {
        ListItem {
            file_name: self.file_name.clone(),
            size: self.size,
            modified_date: self.modified_date,
            is_dir: self.is_dir,
            mode: self.mode,
        }
    }

    /// Renders the long-format details of this entry.
    pub fn display_details(&self) -> (r: String)
        ensures
            r@ == spec_details(self@),
    {
        proof {
            reveal_strlit(" ");
        }
        let mut s = parse_permissions(self.mode);
        s.append(" ");
        s.append(pad_to(format_size(self.size), 6).as_str());
        s.append(" ");
        s.append(pad_to(time_string(self.modified_date), 10).as_str());
        s.append(" ");
        proof {
            assert(s@ =~= spec_details(self@));
        }
        s
    }

    /// Renders the icon segment of this entry.
    pub fn display_icon(&self) -> (r: Segment)
        ensures
            r@ == spec_icon(self@),
    {
        if self.is_dir {
            proof {
                reveal_strlit(" \u{f74a} ");
            }
            let r = Segment {
                style: Style::Fg { red: 227, green: 177, blue: 77 },
                text: String::from_str(" \u{f74a} "),
            };
            proof {
                assert(r@ =~= spec_icon(self@));
            }
            r
        } else {
            proof {
                reveal_strlit(" \u{f723} ");
            }
            let r = Segment {
                style: Style::Fg { red: 65, green: 129, blue: 190 },
                text: String::from_str(" \u{f723} "),
            };
            proof {
                assert(r@ =~= spec_icon(self@));
            }
            r
        }
    }

    /// Renders the filename segments of this entry.
    pub fn display_filename(&self) -> (r: Vec<Segment>)
        ensures
            crate::style::segs_view(r@) == spec_filename(self@),
    {
        proof {
            reveal_strlit(" ");
        }
        let style = if self.is_dir {
            Style::BoldBlue
        } else {
            Style::Plain
        };
        let padded = pad_to(self.file_name.clone(), 10);
        let mut v: Vec<Segment> = Vec::new();
        v.push(Segment { style, text: padded });
        v.push(Segment { style: Style::Plain, text: String::from_str(" ") });
        proof {
            assert(crate::style::segs_view(v@) =~~= spec_filename(self@));
        }
        v
    }
}

/// Converts a byte count to the short human-readable form.
pub fn format_size(size: u64) -> (s: String)
    ensures
        s@ == spec_format_size(size as nat),
{
    if size < 1000 {
        proof {
            reveal_strlit("B");
        }
        let mut s = u64_to_string(size);
        s.append("B");
        proof {
            assert(s@ =~= spec_format_size(size as nat));
        }
        s
    } else {
        size_tier(size, 1)
    }
}

} // verus!
