use vstd::prelude::*;
use chrono::Datelike;

verus! {

/// Whether a year has a leap day, in the proleptic Gregorian calendar.
pub open spec fn is_leap_year(y: int) -> bool {
    (y % 4 == 0 && y % 100 != 0) || y % 400 == 0
}

/// The number of days of a month.
pub open spec fn days_in_month(y: int, m: int) -> int {
    if m == 2 {
        if is_leap_year(y) {
            29
        } else {
            28
        }
    } else if m == 4 || m == 6 || m == 9 || m == 11 {
        30
    } else {
        31
    }
}

/// A calendar date this library accepts: one the Gregorian calendar has,
/// between the epoch and the last four-digit year.
pub open spec fn valid_civil(y: int, m: int, d: int) -> bool {
    &&& 1970 <= y <= 9999
    &&& 1 <= m <= 12
    &&& 1 <= d <= days_in_month(y, m)
}

/// The day number of a calendar date, counted from 1970-01-01, in the
/// proleptic Gregorian calendar: years are regrouped to start in March, so
/// that a leap day falls at the end of its regrouped year, and whole
/// 400-year eras of 146097 days are counted first.
pub open spec fn days_from_civil(y: int, m: int, d: int) -> int {
    let yy = if m <= 2 {
        y - 1
    } else {
        y
    };
    let era = yy / 400;
    let yoe = yy - era * 400;
    let mp = if m <= 2 {
        m + 9
    } else {
        m - 3
    };
    let doy = (153 * mp + 2) / 5 + d - 1;
    let doe = yoe * 365 + yoe / 4 - yoe / 100 + doy;
    era * 146097 + doe - 719468
}

/// Relies on chrono::DateTime::<Utc>::from_timestamp and the Datelike
/// accessors year, month and day: the UTC calendar date of an epoch-seconds
/// instant, in the proleptic Gregorian calendar. The contract states that the
/// returned triple is a valid calendar date whose day number under
/// `days_from_civil` equals the instant's day count since 1970-01-01, its
/// epoch seconds divided by 86400. The result depends on the argument alone,
/// never on a clock or time zone.
#[verifier::external_body]
fn utc_civil_from_epoch(epoch_seconds: u64) -> (r: (u32, u8, u8))
    requires
        epoch_seconds < 100_000_000_000,
    ensures
        valid_civil(r.0 as int, r.1 as int, r.2 as int),
        days_from_civil(r.0 as int, r.1 as int, r.2 as int) == epoch_seconds as int / 86400,
{
    let dt = chrono::DateTime::<chrono::Utc>::from_timestamp(epoch_seconds as i64, 0).unwrap();
    (dt.year() as u32, dt.month() as u8, dt.day() as u8)
}

/// Relies on uuid::Uuid::new_v4 and its display form: a fresh random
/// identifier, rendered as 36 characters of lowercase hexadecimal in five
/// hyphen-separated groups. Nothing is assumed about which identifier comes
/// back, only about its shape.
#[verifier::external_body]
fn new_uuid_string() -> (r: String)
    ensures
        is_uuid_token(r@),
{
    format!("{}", uuid::Uuid::new_v4())
}

/// A character the rendered identifier may contain.
pub open spec fn is_uuid_char(c: char) -> bool {
    ||| c == '-'
    ||| ('0' as nat) <= (c as nat) <= ('9' as nat)
    ||| ('a' as nat) <= (c as nat) <= ('f' as nat)
}

/// The shape of a rendered identifier: 36 characters of hexadecimal digits
/// and hyphens.
pub open spec fn is_uuid_token(s: Seq<char>) -> bool {
    s.len() == 36 && forall|i: int| 0 <= i < s.len() ==> is_uuid_char(#[trigger] s[i])
}

/// An instant in UTC with second resolution: its epoch seconds, together with
/// the calendar date those seconds fall on. The two are kept consistent, so a
/// key built from the date fields and the epoch field cannot mix two
/// instants.
pub struct UtcTimestamp {
    year: u32,
    month: u8,
    day: u8,
    epoch_seconds: u64,
}

impl UtcTimestamp {
    /// What holds of every instant this type can hold: the date is a valid
    /// calendar date, the epoch seconds fit in eleven digits, and the date is
    /// the date of the epoch-seconds instant.
    pub open spec fn wf(&self) -> bool {
        &&& valid_civil(self.year_of(), self.month_of(), self.day_of())
        &&& 0 <= self.epoch_of() < 100_000_000_000
        &&& days_from_civil(self.year_of(), self.month_of(), self.day_of()) == self.epoch_of()
            / 86400
    }

    #[verifier::type_invariant]
    spec fn inv(&self) -> bool {
        self.wf()
    }

    /// The calendar year of this instant.
    pub closed spec fn year_of(&self) -> int {
        self.year as int
    }

    /// The calendar month of this instant.
    pub closed spec fn month_of(&self) -> int {
        self.month as int
    }

    /// The calendar day of this instant.
    pub closed spec fn day_of(&self) -> int {
        self.day as int
    }

    /// The epoch seconds of this instant.
    pub closed spec fn epoch_of(&self) -> int {
        self.epoch_seconds as int
    }

    /// The instant a number of epoch seconds names, with its UTC calendar
    /// date. Accepts any instant whose epoch seconds fit in eleven decimal
    /// digits.
    pub fn from_epoch_seconds(epoch_seconds: u64) -> (r: UtcTimestamp)
        requires
            epoch_seconds < 100_000_000_000,
        ensures
            r.wf(),
            r.epoch_of() == epoch_seconds as int,
            valid_civil(r.year_of(), r.month_of(), r.day_of()),
            days_from_civil(r.year_of(), r.month_of(), r.day_of()) == epoch_seconds as int
                / 86400,
    {
        let (y, m, d) = utc_civil_from_epoch(epoch_seconds);
        UtcTimestamp { year: y, month: m, day: d, epoch_seconds }
    }

    /// The calendar year.
    pub fn year(&self) -> (r: u32)
        ensures
            r as int == self.year_of(),
    {
        self.year
    }

    /// The calendar month.
    pub fn month(&self) -> (r: u8)
        ensures
            r as int == self.month_of(),
    {
        self.month
    }

    /// The calendar day.
    pub fn day(&self) -> (r: u8)
        ensures
            r as int == self.day_of(),
    {
        self.day
    }

    /// The epoch seconds.
    pub fn epoch_seconds(&self) -> (r: u64)
        ensures
            r as int == self.epoch_of(),
    {
        self.epoch_seconds
    }
}

/// The character of one decimal digit.
pub open spec fn digit_char(d: nat) -> char {
    if d == 0 {
        '0'
    } else if d == 1 {
        '1'
    } else if d == 2 {
        '2'
    } else if d == 3 {
        '3'
    } else if d == 4 {
        '4'
    } else if d == 5 {
        '5'
    } else if d == 6 {
        '6'
    } else if d == 7 {
        '7'
    } else if d == 8 {
        '8'
    } else {
        '9'
    }
}

/// The last `width` decimal digits of a number, zero-padded on the left to
/// exactly `width` characters.
pub open spec fn zero_padded(n: nat, width: nat) -> Seq<char>
    decreases width,
{
    if width == 0 {
        Seq::empty()
    } else {
        zero_padded(n / 10, (width - 1) as nat).push(digit_char(n % 10))
    }
}

/// Ten to a power.
pub open spec fn pow10(w: nat) -> nat
    decreases w,
{
    if w == 0 {
        1
    } else {
        10 * pow10((w - 1) as nat)
    }
}

/// A zero-padded number has exactly its width in characters.
pub proof fn lemma_zero_padded_len(n: nat, width: nat)
    ensures
        zero_padded(n, width).len() == width,
    decreases width,
{
    if width > 0 {
        lemma_zero_padded_len(n / 10, (width - 1) as nat);
    }
}

/// The shape every generated key has: the prefix, then the date partition
/// directories, then the zero-padded epoch seconds and the random token.
pub open spec fn key_spec(
    prefix: Seq<char>,
    year: nat,
    month: nat,
    day: nat,
    epoch: nat,
    token: Seq<char>,
) -> Seq<char> {
    prefix + seq!['/'] + zero_padded(year, 4) + seq!['/'] + zero_padded(month, 2) + seq!['/']
        + zero_padded(day, 2) + seq!['/'] + zero_padded(epoch, 11) + seq!['-'] + token
}

/// The string of one decimal digit.
fn digit_str(d: u64) -> (r: &'static str)
    requires
        d < 10,
    ensures
        r@ == seq![digit_char(d as nat)],
{
    proof {
        reveal_strlit("0");
        reveal_strlit("1");
        reveal_strlit("2");
        reveal_strlit("3");
        reveal_strlit("4");
        reveal_strlit("5");
        reveal_strlit("6");
        reveal_strlit("7");
        reveal_strlit("8");
        reveal_strlit("9");
    }
    let r = match d {
        0 => "0",
        1 => "1",
        2 => "2",
        3 => "3",
        4 => "4",
        5 => "5",
        6 => "6",
        7 => "7",
        8 => "8",
        _ => "9",
    };
    proof {
        assert(r@ =~= seq![digit_char(d as nat)]);
    }
    r
}

/// Renders the last `width` decimal digits of a number, zero-padded on the
/// left to exactly `width` characters.
fn format_padded(n: u64, width: u64) -> (r: String)
    ensures
        r@ == zero_padded(n as nat, width as nat),
    decreases width,
{
    if width == 0 {
        String::new()
    } else {
        let mut s = format_padded(n / 10, width - 1);
        s.append(digit_str(n % 10));
        proof {
            assert(s@ =~= zero_padded(n as nat, width as nat));
        }
        s
    }
}

/// Builds collision-resistant, time-partitioned object keys.
pub struct S3KeyGenerator {}

impl S3KeyGenerator {
    /// The key for a prefix, an instant, and a token: the prefix, the date
    /// partition directories, the zero-padded epoch seconds, and the token.
    /// The eleven-digit epoch field keeps the lexicographic order of keys
    /// aligned with time.
    pub fn key_with_token(prefix: &str, datetime: &UtcTimestamp, token: &str) -> (r: String)
        ensures
            r@ == key_spec(
                prefix@,
                datetime.year_of() as nat,
                datetime.month_of() as nat,
                datetime.day_of() as nat,
                datetime.epoch_of() as nat,
                token@,
            ),
    {
        let mut out = prefix.to_owned();
        out.append("/");
        let y = format_padded(datetime.year() as u64, 4);
        out.append(y.as_str());
        out.append("/");
        let mo = format_padded(datetime.month() as u64, 2);
        out.append(mo.as_str());
        out.append("/");
        let d = format_padded(datetime.day() as u64, 2);
        out.append(d.as_str());
        out.append("/");
        let e = format_padded(datetime.epoch_seconds(), 11);
        out.append(e.as_str());
        out.append("-");
        out.append(token);
        proof {
            reveal_strlit("/");
            reveal_strlit("-");
            assert(("/")@ =~= seq!['/']);
            assert(("-")@ =~= seq!['-']);
            assert(out@ =~= key_spec(
                prefix@,
                datetime.year_of() as nat,
                datetime.month_of() as nat,
                datetime.day_of() as nat,
                datetime.epoch_of() as nat,
                token@,
            ));
        }
        out
    }

    /// The key for a prefix and an instant, with a fresh random token: two
    /// calls within the same second still differ whenever their tokens do.
    pub fn date_partitioned_unique_key(prefix: &str, datetime: &UtcTimestamp) -> (r: String)
        ensures
            exists|token: Seq<char>|
                is_uuid_token(token) && r@ == key_spec(
                    prefix@,
                    datetime.year_of() as nat,
                    datetime.month_of() as nat,
                    datetime.day_of() as nat,
                    datetime.epoch_of() as nat,
                    token,
                ),
    {
        let token = new_uuid_string();
        let r = Self::key_with_token(prefix, datetime, token.as_str());
        proof {
            assert(is_uuid_token(token@) && r@ == key_spec(
                prefix@,
                datetime.year_of() as nat,
                datetime.month_of() as nat,
                datetime.day_of() as nat,
                datetime.epoch_of() as nat,
                token@,
            ));
        }
        r
    }
}

/// The year a date belongs to once years are regrouped to start in March.
pub open spec fn shifted_year(y: int, m: int) -> int {
    if m <= 2 {
        y - 1
    } else {
        y
    }
}

/// The day of the regrouped year a date falls on.
pub open spec fn doy_of(m: int, d: int) -> int {
    let mp = if m <= 2 {
        m + 9
    } else {
        m - 3
    };
    (153 * mp + 2) / 5 + d - 1
}

/// The day number of the first day of a regrouped year.
pub open spec fn year_start_days(yy: int) -> int {
    let era = yy / 400;
    let yoe = yy - era * 400;
    era * 146097 + yoe * 365 + yoe / 4 - yoe / 100
}

/// The day of the regrouped year each month starts on.
pub open spec fn month_base(m: int) -> int {
    if m == 1 {
        306
    } else if m == 2 {
        337
    } else if m == 3 {
        0
    } else if m == 4 {
        31
    } else if m == 5 {
        61
    } else if m == 6 {
        92
    } else if m == 7 {
        122
    } else if m == 8 {
        153
    } else if m == 9 {
        184
    } else if m == 10 {
        214
    } else if m == 11 {
        245
    } else {
        275
    }
}

/// The division in the day-of-year formula lands each month on its base day.
pub proof fn lemma_doy_base(m: int, d: int)
    requires
        1 <= m <= 12,
    ensures
        doy_of(m, d) == month_base(m) + d - 1,
{
    assert((153 * 0 + 2) / 5 == 0);
    assert((153 * 1 + 2) / 5 == 31);
    assert((153 * 2 + 2) / 5 == 61);
    assert((153 * 3 + 2) / 5 == 92);
    assert((153 * 4 + 2) / 5 == 122);
    assert((153 * 5 + 2) / 5 == 153);
    assert((153 * 6 + 2) / 5 == 184);
    assert((153 * 7 + 2) / 5 == 214);
    assert((153 * 8 + 2) / 5 == 245);
    assert((153 * 9 + 2) / 5 == 275);
    assert((153 * 10 + 2) / 5 == 306);
    assert((153 * 11 + 2) / 5 == 337);
}

/// The day number of a date is the start of its regrouped year plus its day
/// of that year, less the offset that places day zero on 1970-01-01.
pub proof fn lemma_days_decomposition(y: int, m: int, d: int)
    ensures
        days_from_civil(y, m, d) == year_start_days(shifted_year(y, m)) + doy_of(m, d) - 719468,
{
}

/// One regrouped year spans 365 days, or 366 when its last month holds the
/// leap day, which happens exactly when the following calendar year is a leap
/// year.
pub proof fn lemma_year_step(yy: int)
    requires
        yy >= 0,
    ensures
        year_start_days(yy + 1) == year_start_days(yy) + 365 + (if is_leap_year(yy + 1) {
            1int
        } else {
            0int
        }),
{
    vstd::arithmetic::div_mod::lemma_fundamental_div_mod(yy, 400);
    vstd::arithmetic::div_mod::lemma_fundamental_div_mod(yy + 1, 400);
}

/// Later regrouped years start at least a year's days later, the first step
/// counted exactly.
pub proof fn lemma_year_start_gap(yy1: int, yy2: int)
    requires
        0 <= yy1 < yy2,
    ensures
        year_start_days(yy2) >= year_start_days(yy1) + 365 * (yy2 - yy1) + (if is_leap_year(
            yy1 + 1,
        ) {
            1int
        } else {
            0int
        }),
    decreases yy2 - yy1,
{
    lemma_year_step(yy1);
    if yy1 + 1 < yy2 {
        lemma_year_start_gap(yy1 + 1, yy2);
    }
}

/// Day numbers grow strictly with the calendar order of valid dates.
pub proof fn lemma_days_strictly_monotone(y1: int, m1: int, d1: int, y2: int, m2: int, d2: int)
    requires
        valid_civil(y1, m1, d1),
        valid_civil(y2, m2, d2),
        y1 < y2 || (y1 == y2 && (m1 < m2 || (m1 == m2 && d1 < d2))),
    ensures
        days_from_civil(y1, m1, d1) < days_from_civil(y2, m2, d2),
{
    let yy1 = shifted_year(y1, m1);
    let yy2 = shifted_year(y2, m2);
    lemma_days_decomposition(y1, m1, d1);
    lemma_days_decomposition(y2, m2, d2);
    lemma_doy_base(m1, d1);
    lemma_doy_base(m2, d2);
    assert(yy1 <= yy2);
    if yy1 == yy2 {
        assert(doy_of(m1, d1) < doy_of(m2, d2));
    } else {
        lemma_year_start_gap(yy1, yy2);
        assert(doy_of(m2, d2) >= 0);
        if m1 == 2 && d1 == 29 {
            assert(is_leap_year(y1));
            assert(yy1 + 1 == y1);
            assert(doy_of(m1, d1) == 365);
        } else {
            assert(doy_of(m1, d1) <= 364);
        }
    }
}

/// Character-by-character order on character sequences: the order object
/// keys sort in.
pub open spec fn lex_lt(a: Seq<char>, b: Seq<char>) -> bool
    decreases a.len(),
{
    if b.len() == 0 {
        false
    } else if a.len() == 0 {
        true
    } else if a[0] == b[0] {
        lex_lt(a.drop_first(), b.drop_first())
    } else {
        (a[0] as nat) < (b[0] as nat)
    }
}

/// Prepending a common head to both sides preserves the order.
pub proof fn lemma_lex_common_prefix(c: Seq<char>, x: Seq<char>, y: Seq<char>)
    requires
        lex_lt(x, y),
    ensures
        lex_lt(c + x, c + y),
    decreases c.len(),
{
    if c.len() == 0 {
        assert(c + x =~= x);
        assert(c + y =~= y);
    } else {
        let c2 = c.drop_first();
        lemma_lex_common_prefix(c2, x, y);
        assert((c + x).drop_first() =~= c2 + x);
        assert((c + y).drop_first() =~= c2 + y);
        assert((c + x)[0] == (c + y)[0]);
    }
}

/// Once two equally long sequences are ordered, appending anything to each
/// keeps them ordered.
pub proof fn lemma_lex_append_decided(a: Seq<char>, b: Seq<char>, s: Seq<char>, t: Seq<char>)
    requires
        a.len() == b.len(),
        lex_lt(a, b),
    ensures
        lex_lt(a + s, b + t),
    decreases a.len(),
{
    if a.len() == 0 {
        assert(false);
    } else if a[0] == b[0] {
        lemma_lex_append_decided(a.drop_first(), b.drop_first(), s, t);
        assert((a + s).drop_first() =~= a.drop_first() + s);
        assert((b + t).drop_first() =~= b.drop_first() + t);
        assert((a + s)[0] == (b + t)[0]);
    } else {
        assert((a + s)[0] == a[0]);
        assert((b + t)[0] == b[0]);
    }
}

/// Zero-padding to a common width keeps the order of the numbers: the padded
/// digits of a smaller number sort first.
pub proof fn lemma_zero_padded_lt(n1: nat, n2: nat, width: nat)
    requires
        n1 < n2,
        n2 < pow10(width),
    ensures
        lex_lt(zero_padded(n1, width), zero_padded(n2, width)),
    decreases width,
{
    if width == 0 {
        assert(false);
    } else {
        let w2 = (width - 1) as nat;
        let q1 = n1 / 10;
        let q2 = n2 / 10;
        let c1 = digit_char(n1 % 10);
        let c2 = digit_char(n2 % 10);
        vstd::arithmetic::div_mod::lemma_fundamental_div_mod(n1 as int, 10);
        vstd::arithmetic::div_mod::lemma_fundamental_div_mod(n2 as int, 10);
        lemma_zero_padded_len(q1, w2);
        lemma_zero_padded_len(q2, w2);
        assert(zero_padded(n1, width) =~= zero_padded(q1, w2) + seq![c1]);
        assert(zero_padded(n2, width) =~= zero_padded(q2, w2) + seq![c2]);
        if q1 == q2 {
            assert(n1 % 10 < n2 % 10);
            assert((c1 as nat) < (c2 as nat));
            assert(lex_lt(seq![c1], seq![c2]));
            lemma_lex_common_prefix(zero_padded(q1, w2), seq![c1], seq![c2]);
        } else {
            assert(q1 < q2);
            assert(q2 < pow10(w2));
            lemma_zero_padded_lt(q1, q2, w2);
            lemma_lex_append_decided(zero_padded(q1, w2), zero_padded(q2, w2), seq![c1], seq![c2]);
        }
    }
}

/// When a common head is followed on each side by equally long ordered
/// segments, the whole sequences are ordered, whatever follows the segments.
pub proof fn lemma_key_decided(c: Seq<char>, a: Seq<char>, b: Seq<char>, s: Seq<char>, t: Seq<char>)
    requires
        a.len() == b.len(),
        lex_lt(a, b),
    ensures
        lex_lt(c + a + s, c + b + t),
{
    lemma_lex_append_decided(a, b, s, t);
    lemma_lex_common_prefix(c, a + s, b + t);
    assert(c + a + s =~= c + (a + s));
    assert(c + b + t =~= c + (b + t));
}

/// Keys for one prefix sort by their date and epoch fields: a key whose
/// (year, month, day, epoch) tuple comes first in that order sorts first,
/// whatever the tokens are.
pub proof fn lemma_key_lt(
    prefix: Seq<char>,
    y1: nat,
    mo1: nat,
    d1: nat,
    e1: nat,
    t1: Seq<char>,
    y2: nat,
    mo2: nat,
    d2: nat,
    e2: nat,
    t2: Seq<char>,
)
    requires
        y1 < pow10(4),
        y2 < pow10(4),
        mo1 < pow10(2),
        mo2 < pow10(2),
        d1 < pow10(2),
        d2 < pow10(2),
        e1 < pow10(11),
        e2 < pow10(11),
        y1 < y2 || (y1 == y2 && (mo1 < mo2 || (mo1 == mo2 && (d1 < d2 || (d1 == d2 && e1
            < e2))))),
    ensures
        lex_lt(
            key_spec(prefix, y1, mo1, d1, e1, t1),
            key_spec(prefix, y2, mo2, d2, e2, t2),
        ),
{
    let k1 = key_spec(prefix, y1, mo1, d1, e1, t1);
    let k2 = key_spec(prefix, y2, mo2, d2, e2, t2);
    if y1 < y2 {
        let c = prefix + seq!['/'];
        let s1 = seq!['/'] + zero_padded(mo1, 2) + seq!['/'] + zero_padded(d1, 2) + seq!['/']
            + zero_padded(e1, 11) + seq!['-'] + t1;
        let s2 = seq!['/'] + zero_padded(mo2, 2) + seq!['/'] + zero_padded(d2, 2) + seq!['/']
            + zero_padded(e2, 11) + seq!['-'] + t2;
        lemma_zero_padded_len(y1, 4);
        lemma_zero_padded_len(y2, 4);
        lemma_zero_padded_lt(y1, y2, 4);
        lemma_key_decided(c, zero_padded(y1, 4), zero_padded(y2, 4), s1, s2);
        assert(k1 =~= c + zero_padded(y1, 4) + s1);
        assert(k2 =~= c + zero_padded(y2, 4) + s2);
    } else if mo1 < mo2 {
        let c = prefix + seq!['/'] + zero_padded(y1, 4) + seq!['/'];
        let s1 = seq!['/'] + zero_padded(d1, 2) + seq!['/'] + zero_padded(e1, 11) + seq!['-'] + t1;
        let s2 = seq!['/'] + zero_padded(d2, 2) + seq!['/'] + zero_padded(e2, 11) + seq!['-'] + t2;
        lemma_zero_padded_len(mo1, 2);
        lemma_zero_padded_len(mo2, 2);
        lemma_zero_padded_lt(mo1, mo2, 2);
        lemma_key_decided(c, zero_padded(mo1, 2), zero_padded(mo2, 2), s1, s2);
        assert(k1 =~= c + zero_padded(mo1, 2) + s1);
        assert(k2 =~= c + zero_padded(mo2, 2) + s2);
    } else if d1 < d2 {
        let c = prefix + seq!['/'] + zero_padded(y1, 4) + seq!['/'] + zero_padded(mo1, 2)
            + seq!['/'];
        let s1 = seq!['/'] + zero_padded(e1, 11) + seq!['-'] + t1;
        let s2 = seq!['/'] + zero_padded(e2, 11) + seq!['-'] + t2;
        lemma_zero_padded_len(d1, 2);
        lemma_zero_padded_len(d2, 2);
        lemma_zero_padded_lt(d1, d2, 2);
        lemma_key_decided(c, zero_padded(d1, 2), zero_padded(d2, 2), s1, s2);
        assert(k1 =~= c + zero_padded(d1, 2) + s1);
        assert(k2 =~= c + zero_padded(d2, 2) + s2);
    } else {
        let c = prefix + seq!['/'] + zero_padded(y1, 4) + seq!['/'] + zero_padded(mo1, 2)
            + seq!['/'] + zero_padded(d1, 2) + seq!['/'];
        let s1 = seq!['-'] + t1;
        let s2 = seq!['-'] + t2;
        lemma_zero_padded_len(e1, 11);
        lemma_zero_padded_len(e2, 11);
        lemma_zero_padded_lt(e1, e2, 11);
        lemma_key_decided(c, zero_padded(e1, 11), zero_padded(e2, 11), s1, s2);
        assert(k1 =~= c + zero_padded(e1, 11) + s1);
        assert(k2 =~= c + zero_padded(e2, 11) + s2);
    }
}

/// The powers of ten that bound the zero-padded key fields.
proof fn lemma_pow10_values()
    ensures
        pow10(2) == 100,
        pow10(4) == 10000,
        pow10(11) == 100_000_000_000,
{
    assert(pow10(0) == 1);
    assert(pow10(1) == 10);
    assert(pow10(2) == 100);
    assert(pow10(3) == 1000);
    assert(pow10(4) == 10000);
    assert(pow10(5) == 100000);
    assert(pow10(6) == 1000000);
    assert(pow10(7) == 10000000);
    assert(pow10(8) == 100000000);
    assert(pow10(9) == 1000000000);
    assert(pow10(10) == 10000000000);
    assert(pow10(11) == 100_000_000_000);
}

/// Keys generated for one prefix sort by time: the key of the earlier of two
/// instants comes first in character order, whatever random tokens the two
/// keys carry.
pub proof fn lemma_key_sort_order(
    prefix: Seq<char>,
    ts1: UtcTimestamp,
    ts2: UtcTimestamp,
    t1: Seq<char>,
    t2: Seq<char>,
)
    requires
        ts1.wf(),
        ts2.wf(),
        ts1.epoch_of() < ts2.epoch_of(),
    ensures
        lex_lt(
            key_spec(
                prefix,
                ts1.year_of() as nat,
                ts1.month_of() as nat,
                ts1.day_of() as nat,
                ts1.epoch_of() as nat,
                t1,
            ),
            key_spec(
                prefix,
                ts2.year_of() as nat,
                ts2.month_of() as nat,
                ts2.day_of() as nat,
                ts2.epoch_of() as nat,
                t2,
            ),
        ),
{
    lemma_pow10_values();
    let (y1, mo1, d1, e1) = (ts1.year_of(), ts1.month_of(), ts1.day_of(), ts1.epoch_of());
    let (y2, mo2, d2, e2) = (ts2.year_of(), ts2.month_of(), ts2.day_of(), ts2.epoch_of());
    vstd::arithmetic::div_mod::lemma_div_is_ordered(e1, e2, 86400);
    if !(y1 < y2 || (y1 == y2 && (mo1 < mo2 || (mo1 == mo2 && (d1 < d2 || (d1 == d2 && e1
        < e2)))))) {
        assert(y2 < y1 || (y2 == y1 && (mo2 < mo1 || (mo2 == mo1 && d2 < d1))));
        lemma_days_strictly_monotone(y2, mo2, d2, y1, mo1, d1);
        assert(false);
    }
    lemma_key_lt(
        prefix,
        y1 as nat,
        mo1 as nat,
        d1 as nat,
        e1 as nat,
        t1,
        y2 as nat,
        mo2 as nat,
        d2 as nat,
        e2 as nat,
        t2,
    );
}

/// Keys built for one prefix and instant with different tokens are distinct.
pub proof fn lemma_key_uniqueness(
    prefix: Seq<char>,
    year: nat,
    month: nat,
    day: nat,
    epoch: nat,
    t1: Seq<char>,
    t2: Seq<char>,
)
    requires
        t1 != t2,
    ensures
        key_spec(prefix, year, month, day, epoch, t1) != key_spec(prefix, year, month, day, epoch, t2),
{
    let head = prefix + seq!['/'] + zero_padded(year, 4) + seq!['/'] + zero_padded(month, 2)
        + seq!['/'] + zero_padded(day, 2) + seq!['/'] + zero_padded(epoch, 11) + seq!['-'];
    let k1 = key_spec(prefix, year, month, day, epoch, t1);
    let k2 = key_spec(prefix, year, month, day, epoch, t2);
    assert(k1 == head + t1);
    assert(k2 == head + t2);
    if k1 == k2 {
        assert(t1.len() == t2.len());
        assert(t1 =~= t2) by {
            assert forall|i: int| 0 <= i < t1.len() implies t1[i] == t2[i] by {
                assert((head + t1)[head.len() + i] == t1[i]);
                assert((head + t2)[head.len() + i] == t2[i]);
            }
        }
    }
}

} // verus!
