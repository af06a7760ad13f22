//! Backup snapshots of notes: how a snapshot file is named, what time it
//! records, and which snapshots a backup folder keeps.
use vstd::prelude::*;
use crate::markdown::all_ascii_digits;
use crate::text::{chars_of, ends_with, find_char_from, find_char_in, lemma_find_char_from};

verus! {

/// The largest day number whose month can be computed without overflow.
pub const MAX_SNAPSHOT_DAY: u128 = 9_223_372_036_854_056_339;

/// The value of a decimal digit.
pub open spec fn digit_value(c: char) -> nat {
    ((c as int) - ('0' as int)) as nat
}

/// The number written by the decimal digits `s`.
pub open spec fn decimal_value(s: Seq<char>) -> nat
    decreases s.len(),
{
    if s.len() == 0 {
        0
    } else {
        decimal_value(s.drop_last()) * 10 + digit_value(s.last())
    }
}

/// What `u128::from_str` reads from `s`: an optional `+`, then at least one
/// decimal digit, with a value that fits.
pub open spec fn parsed_u128(s: Seq<char>) -> Option<u128> {
    let digits = if s.len() > 0 && s[0] == '+' {
        s.drop_first()
    } else {
        s
    };
    if digits.len() > 0 && all_ascii_digits(digits) && decimal_value(digits) <= u128::MAX {
        Some(decimal_value(digits) as u128)
    } else {
        None
    }
}

/// The time a snapshot named `name` records: the name is
/// `<nanoseconds>-<process>.md`, and the nanoseconds are read as a `u128`.
pub open spec fn snapshot_timestamp(name: Seq<char>) -> Option<u128> {
    if ends_with(name, seq!['.', 'm', 'd']) {
        let stem = name.take(name.len() - 3);
        match find_char_from(stem, '-', 0) {
            Some(i) => parsed_u128(stem.take(i)),
            None => None,
        }
    } else {
        None
    }
}

proof fn lemma_decimal_value_grows(s: Seq<char>, k: int)
    requires
        0 <= k <= s.len(),
    ensures
        decimal_value(s.take(k)) <= decimal_value(s),
    decreases s.len(),
{
    if k < s.len() {
        assert(s.drop_last().take(k) =~= s.take(k));
        lemma_decimal_value_grows(s.drop_last(), k);
        let v = decimal_value(s.drop_last());
        assert(v <= v * 10) by (nonlinear_arith);
    } else {
        assert(s.take(k) =~= s);
    }
}

/// Reads a `u128` as `u128::from_str` does.
fn parse_u128(s: &[char]) -> (r: Option<u128>)
    ensures
        r == parsed_u128(s@),
{
    let start: usize = if s.len() > 0 && s[0] == '+' {
        1
    } else {
        0
    };
    let ghost digits = if s@.len() > 0 && s@[0] == '+' {
        s@.drop_first()
    } else {
        s@
    };
    proof {
        assert(digits =~= s@.skip(start as int));
        assert(parsed_u128(s@) == if digits.len() > 0 && all_ascii_digits(digits) && decimal_value(
            digits,
        ) <= u128::MAX {
            Some(decimal_value(digits) as u128)
        } else {
            None
        });
    }
    if start >= s.len() {
        return None;
    }
    let mut value: u128 = 0;
    let mut i: usize = start;
    while i < s.len()
        invariant
            start <= i <= s@.len(),
            start < s@.len(),
            digits == s@.skip(start as int),
            parsed_u128(s@) == if digits.len() > 0 && all_ascii_digits(digits) && decimal_value(
                digits,
            ) <= u128::MAX {
                Some(decimal_value(digits) as u128)
            } else {
                None
            },
            all_ascii_digits(s@.subrange(start as int, i as int)),
            value as nat == decimal_value(s@.subrange(start as int, i as int)),
        decreases s@.len() - i,
    {
        let c = s[i];
        let ghost next = s@.subrange(start as int, i + 1);
        proof {
            assert(next.drop_last() =~= s@.subrange(start as int, i as int));
            assert(digits.take(i + 1 - start) =~= next);
        }
        if !('0' <= c && c <= '9') {
            proof {
                assert(digits[i - start] == c);
                assert(!all_ascii_digits(digits));
            }
            return None;
        }
        let d = ((c as u32) - ('0' as u32)) as u128;
        proof {
            lemma_decimal_value_grows(digits, i + 1 - start);
        }
        let scaled = match value.checked_mul(10) {
            Some(v) => v,
            None => {
                proof {
                    assert(decimal_value(next) == value * 10 + d);
                    assert(decimal_value(digits) > u128::MAX);
                }
                return None;
            },
        };
        match scaled.checked_add(d) {
            Some(v) => {
                value = v;
            },
            None => {
                return None;
            },
        }
        proof {
            assert(all_ascii_digits(next));
        }
        i = i + 1;
    }
    proof {
        assert(s@.subrange(start as int, s@.len() as int) =~= digits);
    }
    Some(value)
}

fn timestamp_of_chars(v: &[char]) -> (r: Option<u128>)
    ensures
        r == snapshot_timestamp(v@),
{
    let n = v.len();
    if n < 3 || v[n - 3] != '.' || v[n - 2] != 'm' || v[n - 1] != 'd' {
        proof {
            if n >= 3 && ends_with(v@, seq!['.', 'm', 'd']) {
                assert(v@.skip(n - 3)[0] == v@[n - 3]);
                assert(v@.skip(n - 3)[1] == v@[n - 2]);
                assert(v@.skip(n - 3)[2] == v@[n - 1]);
            }
        }
        return None;
    }
    proof {
        assert(v@.skip(n - 3) =~= seq!['.', 'm', 'd']);
    }
    let stem = crate::text::copy_range(v, 0, n - 3);
    proof {
        assert(stem@ =~= v@.take(n - 3));
    }
    match find_char_in(stem.as_slice(), '-', 0) {
        Some(dash) => {
            proof {
                lemma_find_char_from(stem@, '-', 0);
            }
            let digits = crate::text::copy_range(stem.as_slice(), 0, dash);
            proof {
                assert(digits@ =~= stem@.take(dash as int));
            }
            parse_u128(digits.as_slice())
        },
        None => None,
    }
}

/// The time recorded by the snapshot file `name`, or `None` when `name` is
/// not a snapshot.
pub fn backup_timestamp(name: &str) -> (r: Option<u128>)
    ensures
        r == snapshot_timestamp(name@),
{
    let v = chars_of(name);
    timestamp_of_chars(v.as_slice())
}

/// Whether `name` is the file name of a backup snapshot.
pub fn is_backup_snapshot_name(name: &str) -> (r: bool)
    ensures
        r == (snapshot_timestamp(name@) is Some),
{
    backup_timestamp(name).is_some()
}

/// The day (since 1970-01-01, UTC) of a time in nanoseconds.
pub open spec fn day_of(t: u128) -> int {
    (t / 1_000_000_000 / 86_400) as int
}

/// Whether the month of time `t` can be computed: its day is at most
/// `MAX_SNAPSHOT_DAY`.
pub open spec fn day_in_range(t: u128) -> bool {
    t / 1_000_000_000 / 86_400 <= MAX_SNAPSHOT_DAY
}

/// Rust's integer division, which rounds toward zero.
pub open spec fn div_toward_zero(a: int, b: int) -> int {
    if a >= 0 {
        a / b
    } else {
        -((-a) / b)
    }
}

/// The month serial (`12 * year + month - 1`, months counted from zero) of
/// the proleptic Gregorian date that lies `days` days after 1970-01-01, by
/// Howard Hinnant's civil-from-days algorithm.
pub open spec fn month_serial(days: int) -> int {
    let shifted = days + 719_468;
    let era = div_toward_zero(
        if shifted >= 0 {
            shifted
        } else {
            shifted - 146_096
        },
        146_097,
    );
    let day_of_era = shifted - era * 146_097;
    let year_of_era = (day_of_era - day_of_era / 1_460 + day_of_era / 36_524 - day_of_era
        / 146_096) / 365;
    let year = year_of_era + era * 400;
    let day_of_year = day_of_era - (365 * year_of_era + year_of_era / 4 - year_of_era / 100);
    let month_part = div_toward_zero(5 * day_of_year + 2, 153);
    let month = month_part + if month_part < 10 {
        3int
    } else {
        -9int
    };
    let year = year + if month <= 2 {
        1int
    } else {
        0int
    };
    year * 12 + month - 1
}

/// The month serial of a time in nanoseconds.
pub open spec fn month_of(t: u128) -> int {
    month_serial(day_of(t))
}

/// The day of a time in nanoseconds.
pub fn timestamp_day(timestamp: u128) -> (r: i64)
    requires
        day_in_range(timestamp),
    ensures
        r == day_of(timestamp),
{
    (timestamp / 1_000_000_000 / 86_400) as i64
}

fn divide_toward_zero(a: i64, b: i64) -> (r: i64)
    requires
        b > 0,
        a > i64::MIN,
    ensures
        r == div_toward_zero(a as int, b as int),
{
    if a >= 0 {
        a / b
    } else {
        let q = (-a) / b;
        -q
    }
}

/// The month serial of the date `days_since_epoch` days after 1970-01-01.
pub fn month_serial_from_days(days_since_epoch: i64) -> (r: i64)
    requires
        days_since_epoch <= MAX_SNAPSHOT_DAY,
    ensures
        r == month_serial(days_since_epoch as int),
{
    let shifted = days_since_epoch + 719_468;
    let era = divide_toward_zero(
        if shifted >= 0 {
            shifted
        } else {
            shifted - 146_096
        },
        146_097,
    );
    proof {
        let a: int = if shifted >= 0 {
            shifted as int
        } else {
            shifted - 146_096
        };
        if a >= 0 {
            assert(0 <= a - (a / 146_097) * 146_097 < 146_097) by (nonlinear_arith)
                requires
                    a >= 0,
            ;
        } else {
            let p: int = -a;
            assert(0 <= p - (p / 146_097) * 146_097 < 146_097) by (nonlinear_arith)
                requires
                    p > 0,
            ;
        }
    }
    let day_of_era = shifted - era * 146_097;
    let year_of_era = (day_of_era - day_of_era / 1_460 + day_of_era / 36_524 - day_of_era
        / 146_096) / 365;
    let year = year_of_era + era * 400;
    let day_of_year = day_of_era - (365 * year_of_era + year_of_era / 4 - year_of_era / 100);
    let month_part = divide_toward_zero(5 * day_of_year + 2, 153);
    let month = month_part + if month_part < 10 {
        3
    } else {
        -9
    };
    let year = year + if month <= 2 {
        1
    } else {
        0
    };
    year * 12 + month - 1
}

/// The month serial of a time in nanoseconds.
pub fn timestamp_month(timestamp: u128) -> (r: i64)
    requires
        day_in_range(timestamp),
    ensures
        r == month_of(timestamp),
{
    month_serial_from_days(timestamp_day(timestamp))
}

/// How many of the newest saves a backup folder keeps.
pub const RECENT_SAVE_COUNT: usize = 5;

/// For how many days (today included) the last save of each day is kept.
pub const DAILY_RETENTION_DAYS: i64 = 5;

/// For how many months (this one included) the last save of each month is kept.
pub const MONTHLY_RETENTION_MONTHS: i64 = 5;

/// The index of the first position at or after `i` where `a` and `b`
/// differ, or where one of them ends.
pub open spec fn first_difference(a: Seq<char>, b: Seq<char>, i: int) -> int
    decreases a.len() - i,
{
    if i < 0 || i >= a.len() || i >= b.len() || a[i] != b[i] {
        i
    } else {
        first_difference(a, b, i + 1)
    }
}

/// `a` sorts before `b` in the order of their characters' code points, which
/// is the byte order of their UTF-8 encodings (the order of `String`).
pub open spec fn text_before(a: Seq<char>, b: Seq<char>) -> bool {
    let k = first_difference(a, b, 0);
    if k < a.len() && k < b.len() {
        a[k] < b[k]
    } else {
        a.len() < b.len()
    }
}

/// Both names are snapshots and `a` is the newer one: a later time, or the
/// same time and a name that sorts after.
pub open spec fn newer_snapshot(a: Seq<char>, b: Seq<char>) -> bool {
    match (snapshot_timestamp(a), snapshot_timestamp(b)) {
        (Some(ta), Some(tb)) => ta > tb || (ta == tb && text_before(b, a)),
        _ => false,
    }
}

/// How many of the first `k` names are snapshots newer than `x`, counted
/// with repetition.
pub open spec fn newer_count(names: Seq<Seq<char>>, x: Seq<char>, k: int) -> nat
    decreases k,
{
    if k <= 0 || k > names.len() {
        0
    } else {
        newer_count(names, x, k - 1) + if newer_snapshot(names[k - 1], x) {
            1nat
        } else {
            0nat
        }
    }
}

/// `x` is among the newest `RECENT_SAVE_COUNT` saves of `names`.
pub open spec fn among_recent(names: Seq<Seq<char>>, x: Seq<char>) -> bool {
    newer_count(names, x, names.len() as int) < RECENT_SAVE_COUNT
}

/// No snapshot in `names` from the same day as `x` is newer than `x`.
pub open spec fn last_of_its_day(names: Seq<Seq<char>>, x: Seq<char>) -> bool {
    forall|i: int|
        0 <= i < names.len() && (#[trigger] snapshot_timestamp(names[i])) is Some && day_of(
            snapshot_timestamp(names[i])->0,
        ) == day_of(snapshot_timestamp(x)->0) ==> !newer_snapshot(names[i], x)
}

/// No snapshot in `names` from the same month as `x` is newer than `x`.
pub open spec fn last_of_its_month(names: Seq<Seq<char>>, x: Seq<char>) -> bool {
    forall|i: int|
        0 <= i < names.len() && (#[trigger] snapshot_timestamp(names[i])) is Some && month_of(
            snapshot_timestamp(names[i])->0,
        ) == month_of(snapshot_timestamp(x)->0) ==> !newer_snapshot(names[i], x)
}

/// Whether the snapshot `x` of `names` is kept at time `now`: it is among the
/// newest saves, or the last save of one of the last days, or the last save
/// of one of the last months.
pub open spec fn kept_snapshot(names: Seq<Seq<char>>, now: u128, x: Seq<char>) -> bool {
    &&& snapshot_timestamp(x) is Some
    &&& {
        let t = snapshot_timestamp(x)->0;
        ||| among_recent(names, x)
        ||| (day_of(now) - DAILY_RETENTION_DAYS < day_of(t) <= day_of(now) && last_of_its_day(
            names,
            x,
        ))
        ||| (month_of(now) - MONTHLY_RETENTION_MONTHS < month_of(t) <= month_of(now)
            && last_of_its_month(names, x))
    }
}

/// The character sequences of `names`.
pub open spec fn name_views(names: Seq<String>) -> Seq<Seq<char>> {
    names.map_values(|s: String| s@)
}

/// Whether every snapshot among `names` records a time whose month can be
/// computed.
pub open spec fn snapshots_in_range(names: Seq<Seq<char>>) -> bool {
    forall|i: int|
        0 <= i < names.len() ==> match #[trigger] snapshot_timestamp(names[i]) {
            Some(t) => day_in_range(t),
            None => true,
        }
}

/// `a` sorts before `b` (see `text_before`).
fn text_less(a: &[char], b: &[char]) -> (r: bool)
    ensures
        r == text_before(a@, b@),
{
    let mut i: usize = 0;
    while i < a.len() && i < b.len() && a[i] == b[i]
        invariant
            i <= a@.len(),
            i <= b@.len(),
            first_difference(a@, b@, 0) == first_difference(a@, b@, i as int),
        decreases a@.len() - i,
    {
        i = i + 1;
    }
    if i < a.len() && i < b.len() {
        a[i] < b[i]
    } else {
        a.len() < b.len()
    }
}

/// The character sequences and snapshot times of a list of names.
struct Snapshots {
    chars: Vec<Vec<char>>,
    times: Vec<Option<u128>>,
}

impl Snapshots {
    spec fn describes(&self, names: Seq<Seq<char>>) -> bool {
        &&& self.chars@.len() == names.len()
        &&& self.times@.len() == names.len()
        &&& forall|i: int| 0 <= i < names.len() ==> (#[trigger] self.chars@[i])@ == names[i]
        &&& forall|i: int|
            0 <= i < names.len() ==> #[trigger] self.times@[i] == snapshot_timestamp(names[i])
    }

    fn read(names: &Vec<String>) -> (r: Snapshots)
        ensures
            r.describes(name_views(names@)),
    {
        let mut chars: Vec<Vec<char>> = Vec::new();
        let mut times: Vec<Option<u128>> = Vec::new();
        let mut i: usize = 0;
        while i < names.len()
            invariant
                i <= names@.len(),
                chars@.len() == i,
                times@.len() == i,
                forall|k: int| 0 <= k < i ==> (#[trigger] chars@[k])@ == names@[k]@,
                forall|k: int|
                    0 <= k < i ==> #[trigger] times@[k] == snapshot_timestamp(names@[k]@),
            decreases names@.len() - i,
        {
            let v = chars_of(names[i].as_str());
            times.push(timestamp_of_chars(v.as_slice()));
            chars.push(v);
            i = i + 1;
        }
        Snapshots { chars, times }
    }

    /// Whether snapshot `j` is newer than snapshot `i` (with time `t`).
    fn newer(&self, j: usize, i: usize, t: u128, Ghost(names): Ghost<Seq<Seq<char>>>) -> (r: bool)
        requires
            self.describes(names),
            i < names.len(),
            j < names.len(),
            snapshot_timestamp(names[i as int]) == Some(t),
        ensures
            r == newer_snapshot(names[j as int], names[i as int]),
    {
        match self.times[j] {
            None => false,
            Some(u) => u > t || (u == t && text_less(
                self.chars[i].as_slice(),
                self.chars[j].as_slice(),
            )),
        }
    }

    /// How many snapshots are newer than snapshot `i`.
    fn count_newer(&self, i: usize, t: u128, Ghost(names): Ghost<Seq<Seq<char>>>) -> (r: usize)
        requires
            self.describes(names),
            i < names.len(),
            snapshot_timestamp(names[i as int]) == Some(t),
        ensures
            r == newer_count(names, names[i as int], names.len() as int),
    {
        let mut count: usize = 0;
        let mut j: usize = 0;
        while j < self.times.len()
            invariant
                self.describes(names),
                i < names.len(),
                snapshot_timestamp(names[i as int]) == Some(t),
                j <= names.len(),
                count <= j,
                count == newer_count(names, names[i as int], j as int),
            decreases names.len() - j,
        {
            if self.newer(j, i, t, Ghost(names)) {
                count = count + 1;
            }
            j = j + 1;
        }
        count
    }

    /// Whether no snapshot of the same day (`by_month` false) or month
    /// (`by_month` true) as snapshot `i` is newer than it.
    fn is_last_of_period(
        &self,
        i: usize,
        t: u128,
        by_month: bool,
        Ghost(names): Ghost<Seq<Seq<char>>>,
    ) -> (r: bool)
        requires
            self.describes(names),
            i < names.len(),
            snapshot_timestamp(names[i as int]) == Some(t),
            snapshots_in_range(names),
        ensures
            by_month ==> r == last_of_its_month(names, names[i as int]),
            !by_month ==> r == last_of_its_day(names, names[i as int]),
    {
        proof {
            assert(day_in_range(snapshot_timestamp(names[i as int])->0));
        }
        let period = if by_month {
            timestamp_month(t)
        } else {
            timestamp_day(t)
        };
        let mut j: usize = 0;
        while j < self.times.len()
            invariant
                self.describes(names),
                i < names.len(),
                snapshot_timestamp(names[i as int]) == Some(t),
                snapshots_in_range(names),
                j <= names.len(),
                by_month ==> period == month_of(t),
                !by_month ==> period == day_of(t),
                forall|k: int|
                    0 <= k < j && (#[trigger] snapshot_timestamp(names[k])) is Some && (if by_month {
                        month_of(snapshot_timestamp(names[k])->0) == month_of(t)
                    } else {
                        day_of(snapshot_timestamp(names[k])->0) == day_of(t)
                    }) ==> !newer_snapshot(names[k], names[i as int]),
            decreases names.len() - j,
        {
            match self.times[j] {
                Some(u) => {
                    proof {
                        assert(snapshot_timestamp(names[j as int]) == Some(u));
                        assert(day_in_range(u));
                    }
                    let same = if by_month {
                        timestamp_month(u) == period
                    } else {
                        timestamp_day(u) == period
                    };
                    if same && self.newer(j, i, t, Ghost(names)) {
                        return false;
                    }
                },
                None => {},
            }
            j = j + 1;
        }
        true
    }
}

/// Whether `names[i]` also occurs among the names before it.
fn occurs_before(chars: &Vec<Vec<char>>, i: usize) -> (r: bool)
    requires
        i < chars@.len(),
    ensures
        r == exists|k: int| 0 <= k < i && (#[trigger] chars@[k])@ == chars@[i as int]@,
{
    let mut k: usize = 0;
    while k < i
        invariant
            k <= i < chars@.len(),
            forall|m: int| 0 <= m < k ==> (#[trigger] chars@[m])@ != chars@[i as int]@,
        decreases i - k,
    {
        if crate::text::seq_eq(chars[k].as_slice(), chars[i].as_slice()) {
            return true;
        }
        k = k + 1;
    }
    false
}

/// Some string of `s` has the characters `y`.
pub open spec fn listed(s: Seq<String>, y: Seq<char>) -> bool {
    exists|k: int| 0 <= k < s.len() && (#[trigger] s[k])@ == y
}

/// One of the first `i` names is `y`.
pub open spec fn seen(names: Seq<Seq<char>>, i: int, y: Seq<char>) -> bool {
    exists|j: int| 0 <= j < i && #[trigger] names[j] == y
}

proof fn lemma_listed_push(s: Seq<String>, z: String, y: Seq<char>)
    ensures
        listed(s.push(z), y) <==> (listed(s, y) || z@ == y),
{
    if listed(s, y) {
        let k = choose|k: int| 0 <= k < s.len() && (#[trigger] s[k])@ == y;
        assert(s.push(z)[k] == s[k]);
    }
    if z@ == y {
        assert(s.push(z)[s.len() as int] == z);
    }
    if listed(s.push(z), y) {
        let k = choose|k: int| 0 <= k < s.len() + 1 && (#[trigger] s.push(z)[k])@ == y;
        if k < s.len() {
            assert(s[k] == s.push(z)[k]);
        }
    }
}

proof fn lemma_seen_next(names: Seq<Seq<char>>, i: int, y: Seq<char>)
    requires
        0 <= i < names.len(),
    ensures
        seen(names, i + 1, y) <==> (seen(names, i, y) || names[i] == y),
{
    if seen(names, i + 1, y) {
        let j = choose|j: int| 0 <= j < i + 1 && #[trigger] names[j] == y;
        if j < i {
            assert(seen(names, i, y));
        }
    }
    if seen(names, i, y) {
        let j = choose|j: int| 0 <= j < i && #[trigger] names[j] == y;
        assert(names[j] == y);
    }
    if names[i] == y {
        assert(names[i] == y);
    }
}

/// The snapshots a backup folder keeps at time `now_nanos`, each once: the
/// newest `RECENT_SAVE_COUNT` saves, the last save of each of the last
/// `DAILY_RETENTION_DAYS` days, and the last save of each of the last
/// `MONTHLY_RETENTION_MONTHS` months. Names that are not snapshots are never
/// kept.
pub fn retained_backup_names(names: &Vec<String>, now_nanos: u128) -> (r: Vec<String>)
    requires
        day_in_range(now_nanos),
        snapshots_in_range(name_views(names@)),
    ensures
        forall|a: int, b: int| 0 <= a < b < r@.len() ==> r@[a]@ != r@[b]@,
        forall|x: Seq<char>|
            listed(r@, x) <==> (name_views(names@).contains(x) && kept_snapshot(
                name_views(names@),
                now_nanos,
                x,
            )),
        r@.len() <= RECENT_SAVE_COUNT + DAILY_RETENTION_DAYS + MONTHLY_RETENTION_MONTHS,
{
    let ghost views = name_views(names@);
    let snapshots = Snapshots::read(names);
    let current_day = timestamp_day(now_nanos);
    let current_month = timestamp_month(now_nanos);
    let mut kept: Vec<String> = Vec::new();
    let mut i: usize = 0;
    while i < names.len()
        invariant
            views == name_views(names@),
            views.len() == names@.len(),
            snapshots.describes(views),
            snapshots_in_range(views),
            day_in_range(now_nanos),
            current_day == day_of(now_nanos),
            current_month == month_of(now_nanos),
            i <= names@.len(),
            forall|a: int, b: int| 0 <= a < b < kept@.len() ==> kept@[a]@ != kept@[b]@,
            forall|y: Seq<char>|
                listed(kept@, y) <==> (seen(views, i as int, y) && kept_snapshot(
                    views,
                    now_nanos,
                    y,
                )),
        decreases names@.len() - i,
    {
        let ghost x = views[i as int];
        let ghost before = kept@;
        let keep = match snapshots.times[i] {
            None => false,
            Some(t) => {
                if occurs_before(&snapshots.chars, i) {
                    false
                } else {
                    let recent = snapshots.count_newer(i, t, Ghost(views)) < RECENT_SAVE_COUNT;
                    proof {
                        assert(day_in_range(snapshot_timestamp(views[i as int])->0));
                    }
                    let day = timestamp_day(t);
                    let month = timestamp_month(t);
                    let daily = current_day - DAILY_RETENTION_DAYS < day && day <= current_day
                        && snapshots.is_last_of_period(i, t, false, Ghost(views));
                    let monthly = current_month - MONTHLY_RETENTION_MONTHS < month && month
                        <= current_month && snapshots.is_last_of_period(i, t, true, Ghost(views));
                    recent || daily || monthly
                }
            },
        };
        let ghost repeated = seen(views, i as int, x);
        proof {
            if seen(views, i as int, x) {
                let j = choose|j: int| 0 <= j < i && #[trigger] views[j] == x;
                assert(snapshots.chars@[j]@ == snapshots.chars@[i as int]@);
            }
            assert(!repeated ==> keep == kept_snapshot(views, now_nanos, x));
            assert(keep ==> !repeated);
        }
        if keep {
            kept.push(names[i].clone());
        }
        proof {
            assert forall|y: Seq<char>|
                listed(kept@, y) <==> (seen(views, i + 1, y) && kept_snapshot(
                    views,
                    now_nanos,
                    y,
                )) by {
                lemma_seen_next(views, i as int, y);
                if keep {
                    lemma_listed_push(before, names@[i as int], y);
                }
            }
            if keep {
                assert forall|a: int, b: int| 0 <= a < b < kept@.len() implies kept@[a]@
                    != kept@[b]@ by {
                    if b == kept@.len() - 1 {
                        assert(kept@[b]@ == x);
                        assert(before[a] == kept@[a]);
                        if before[a]@ == x {
                            assert(listed(before, x));
                        }
                    } else {
                        assert(kept@[a] == before[a] && kept@[b] == before[b]);
                    }
                }
            }
        }
        i = i + 1;
    }
    proof {
        assert forall|y: Seq<char>| seen(views, views.len() as int, y) <==> views.contains(y) by {
            if views.contains(y) {
                let j = choose|j: int| 0 <= j < views.len() && views[j] == y;
                assert(views[j] == y);
            }
        }
    }
    proof {
        lemma_kept_count(kept@, views, now_nanos);
    }
    kept
}

/// A list of distinct kept names is no longer than the set of kept names.
proof fn lemma_kept_count(r: Seq<String>, views: Seq<Seq<char>>, now: u128)
    requires
        forall|a: int, b: int| 0 <= a < b < r.len() ==> r[a]@ != r[b]@,
        forall|x: Seq<char>| listed(r, x) <==> (views.contains(x) && kept_snapshot(views, now, x)),
    ensures
        r.len() <= 15,
{
    let v = name_views(r);
    assert forall|a: int, b: int| 0 <= a < v.len() && 0 <= b < v.len() && a != b implies v[a] != v[b] by {
        if a < b {
            assert(r[a]@ != r[b]@);
        } else {
            assert(r[b]@ != r[a]@);
        }
    }
    assert(v.no_duplicates());
    v.unique_seq_to_set();
    law_retention_keeps_at_most_fifteen(views, now);
    assert forall|x: Seq<char>| v.to_set().contains(x) implies kept_names(views, now).contains(x) by {
        let k = choose|k: int| 0 <= k < v.len() && v[k] == x;
        assert(listed(r, x));
    }
    vstd::set_lib::lemma_len_subset(v.to_set(), kept_names(views, now));
}

/// Whether `retained_backup_names` can decide on `names` at `now_nanos`:
/// every time involved has a day whose month can be computed.
pub fn retention_applies(names: &Vec<String>, now_nanos: u128) -> (r: bool)
    ensures
        r == (day_in_range(now_nanos) && snapshots_in_range(name_views(names@))),
{
    if now_nanos / 1_000_000_000 / 86_400 > MAX_SNAPSHOT_DAY {
        return false;
    }
    let mut i: usize = 0;
    while i < names.len()
        invariant
            i <= names@.len(),
            forall|k: int|
                0 <= k < i ==> match #[trigger] snapshot_timestamp(name_views(names@)[k]) {
                    Some(t) => day_in_range(t),
                    None => true,
                },
        decreases names@.len() - i,
    {
        proof {
            assert(name_views(names@)[i as int] == names@[i as int]@);
        }
        match backup_timestamp(names[i].as_str()) {
            Some(t) => {
                if t / 1_000_000_000 / 86_400 > MAX_SNAPSHOT_DAY {
                    return false;
                }
            },
            None => {},
        }
        i = i + 1;
    }
    true
}

/// Both texts have a character at `j`, and it is the same.
pub open spec fn agree_at(a: Seq<char>, b: Seq<char>, j: int) -> bool {
    0 <= j < a.len() && j < b.len() && a[j] == b[j]
}

/// What `first_difference` finds: from `i` on, both texts agree up to it,
/// and there they differ or one of them ends.
proof fn lemma_first_difference(a: Seq<char>, b: Seq<char>, i: int)
    requires
        0 <= i,
    ensures
        i <= first_difference(a, b, i),
        forall|j: int| i <= j < first_difference(a, b, i) ==> #[trigger] agree_at(a, b, j),
        !agree_at(a, b, first_difference(a, b, i)),
    decreases a.len() - i,
{
    if !(i >= a.len() || i >= b.len() || a[i] != b[i]) {
        lemma_first_difference(a, b, i + 1);
        assert(first_difference(a, b, i) == first_difference(a, b, i + 1));
        assert forall|j: int| i <= j < first_difference(a, b, i) implies #[trigger] agree_at(a, b, j) by {
            if j > i {
                assert(i + 1 <= j < first_difference(a, b, i + 1));
            }
        }
    }
}

/// A position where both texts first differ (or one ends) is what
/// `first_difference` finds.
proof fn lemma_first_difference_is(a: Seq<char>, b: Seq<char>, i: int, k: int)
    requires
        0 <= i <= k,
        forall|j: int| i <= j < k ==> #[trigger] agree_at(a, b, j),
        !agree_at(a, b, k),
    ensures
        first_difference(a, b, i) == k,
    decreases k - i,
{
    if i < k {
        assert(agree_at(a, b, i));
        lemma_first_difference_is(a, b, i + 1, k);
    }
}

proof fn lemma_text_before_total(a: Seq<char>, b: Seq<char>)
    requires
        a != b,
    ensures
        text_before(a, b) || text_before(b, a),
{
    lemma_first_difference(a, b, 0);
    let k = first_difference(a, b, 0);
    assert forall|j: int| 0 <= j < k implies #[trigger] agree_at(b, a, j) by {
        assert(agree_at(a, b, j));
    }
    lemma_first_difference_is(b, a, 0, k);
    if k > 0 {
        assert(agree_at(a, b, k - 1));
    }
    if !(k < a.len() && k < b.len()) {
        if a.len() == b.len() {
            assert forall|j: int| 0 <= j < a.len() implies a[j] == b[j] by {
                assert(agree_at(a, b, j));
            }
            assert(a =~= b);
        }
    }
}

proof fn lemma_text_before_transitive(a: Seq<char>, b: Seq<char>, c: Seq<char>)
    requires
        text_before(a, b),
        text_before(b, c),
    ensures
        text_before(a, c),
{
    lemma_first_difference(a, b, 0);
    lemma_first_difference(b, c, 0);
    let k1 = first_difference(a, b, 0);
    let k2 = first_difference(b, c, 0);
    if k1 > 0 {
        assert(agree_at(a, b, k1 - 1));
    }
    if k2 > 0 {
        assert(agree_at(b, c, k2 - 1));
    }
    let m = if k1 <= k2 { k1 } else { k2 };
    assert forall|j: int| 0 <= j < m implies #[trigger] agree_at(a, c, j) by {
        assert(agree_at(a, b, j));
        assert(agree_at(b, c, j));
    }
    if k1 < k2 {
        assert(agree_at(b, c, k1));
        lemma_first_difference_is(a, c, 0, k1);
    } else if k2 < k1 {
        assert(agree_at(a, b, k2));
        lemma_first_difference_is(a, c, 0, k2);
    } else {
        lemma_first_difference_is(a, c, 0, k1);
    }
}

proof fn lemma_newer_total(a: Seq<char>, b: Seq<char>)
    requires
        a != b,
        snapshot_timestamp(a) is Some,
        snapshot_timestamp(b) is Some,
    ensures
        newer_snapshot(a, b) || newer_snapshot(b, a),
{
    lemma_text_before_total(a, b);
}

proof fn lemma_newer_transitive(a: Seq<char>, b: Seq<char>, c: Seq<char>)
    requires
        newer_snapshot(a, b),
        newer_snapshot(b, c),
    ensures
        newer_snapshot(a, c),
{
    let ta = snapshot_timestamp(a)->0;
    let tb = snapshot_timestamp(b)->0;
    let tc = snapshot_timestamp(c)->0;
    if ta == tb && tb == tc {
        lemma_text_before_transitive(c, b, a);
    }
}

/// The names among the first `n` of `names` that are snapshots newer than `x`.
pub open spec fn newer_names(names: Seq<Seq<char>>, x: Seq<char>, n: int) -> Set<Seq<char>> {
    Set::new(|y: Seq<char>| names.take(n).contains(y) && newer_snapshot(y, x))
}

/// Counting with repetition counts every newer name at least once.
proof fn lemma_newer_count_covers(names: Seq<Seq<char>>, x: Seq<char>, n: int)
    requires
        0 <= n <= names.len(),
    ensures
        newer_names(names, x, n).finite(),
        newer_names(names, x, n).len() <= newer_count(names, x, n),
    decreases n,
{
    if n == 0 {
        assert(newer_names(names, x, n) =~= Set::<Seq<char>>::empty());
    } else {
        lemma_newer_count_covers(names, x, n - 1);
        let prev = newer_names(names, x, n - 1);
        let cur = newer_names(names, x, n);
        let last = names[n - 1];
        assert forall|y: Seq<char>| cur.contains(y) implies prev.insert(last).contains(y) by {
            let j = choose|j: int| 0 <= j < names.take(n).len() && names.take(n)[j] == y;
            if j < n - 1 {
                assert(names.take(n - 1)[j] == y);
            }
        }
        if newer_snapshot(last, x) {
            vstd::set_lib::lemma_len_subset(cur, prev.insert(last));
        } else {
            assert forall|y: Seq<char>| cur.contains(y) implies prev.contains(y) by {
                let j = choose|j: int| 0 <= j < names.take(n).len() && names.take(n)[j] == y;
                if j < n - 1 {
                    assert(names.take(n - 1)[j] == y);
                }
            }
            vstd::set_lib::lemma_len_subset(cur, prev);
        }
    }
}

/// A finite, non-empty set of snapshot names has an oldest one: every
/// other name of the set is newer.
proof fn lemma_oldest(s: Set<Seq<char>>)
    requires
        s.finite(),
        s.len() > 0,
        forall|y: Seq<char>| s.contains(y) ==> snapshot_timestamp(y) is Some,
    ensures
        exists|z: Seq<char>| s.contains(z) && forall|y: Seq<char>| s.contains(y) && y != z ==> newer_snapshot(y, z),
    decreases s.len(),
{
    let a = s.choose();
    let rest = s.remove(a);
    if rest.len() == 0 {
        assert forall|y: Seq<char>| s.contains(y) && y != a implies newer_snapshot(y, a) by {
            assert(rest.contains(y));
        }
    } else {
        lemma_oldest(rest);
        let z = choose|z: Seq<char>| rest.contains(z) && forall|y: Seq<char>| rest.contains(y) && y != z ==> newer_snapshot(y, z);
        lemma_newer_total(a, z);
        if newer_snapshot(a, z) {
            assert forall|y: Seq<char>| s.contains(y) && y != z implies newer_snapshot(y, z) by {
                if y != a {
                    assert(rest.contains(y));
                }
            }
        } else {
            assert forall|y: Seq<char>| s.contains(y) && y != a implies newer_snapshot(y, a) by {
                if y != z {
                    assert(rest.contains(y));
                    lemma_newer_transitive(y, z, a);
                }
            }
        }
    }
}

/// The names of `names` kept at `now`, each once.
pub open spec fn kept_names(names: Seq<Seq<char>>, now: u128) -> Set<Seq<char>> {
    Set::new(|x: Seq<char>| names.contains(x) && kept_snapshot(names, now, x))
}

proof fn lemma_recent_bound(names: Seq<Seq<char>>)
    ensures
        ({
            let r = Set::new(|x: Seq<char>| names.contains(x) && snapshot_timestamp(x) is Some && among_recent(names, x));
            r.finite() && r.len() <= RECENT_SAVE_COUNT
        }),
{
    let r = Set::new(|x: Seq<char>| names.contains(x) && snapshot_timestamp(x) is Some && among_recent(names, x));
    vstd::seq_lib::seq_to_set_is_finite(names);
    vstd::set_lib::lemma_len_subset(r, names.to_set());
    if r.len() > 0 {
        lemma_oldest(r);
        let z = choose|z: Seq<char>| r.contains(z) && forall|y: Seq<char>| r.contains(y) && y != z ==> newer_snapshot(y, z);
        let n = names.len() as int;
        lemma_newer_count_covers(names, z, n);
        assert(names.take(n) =~= names);
        assert(r.remove(z).subset_of(newer_names(names, z, n)));
        vstd::set_lib::lemma_len_subset(r.remove(z), newer_names(names, z, n));
    }
}

proof fn lemma_daily_bound(names: Seq<Seq<char>>, now: u128)
    ensures
        ({
            let d = Set::new(|x: Seq<char>| names.contains(x) && snapshot_timestamp(x) is Some
                && day_of(now) - DAILY_RETENTION_DAYS < day_of(snapshot_timestamp(x)->0) <= day_of(now)
                && last_of_its_day(names, x));
            d.finite() && d.len() <= DAILY_RETENTION_DAYS
        }),
{
    let d = Set::new(|x: Seq<char>| names.contains(x) && snapshot_timestamp(x) is Some
        && day_of(now) - DAILY_RETENTION_DAYS < day_of(snapshot_timestamp(x)->0) <= day_of(now)
        && last_of_its_day(names, x));
    vstd::seq_lib::seq_to_set_is_finite(names);
    vstd::set_lib::lemma_len_subset(d, names.to_set());
    let f = |x: Seq<char>| day_of(snapshot_timestamp(x)->0);
    assert forall|x: Seq<char>, y: Seq<char>| d.contains(x) && d.contains(y) && #[trigger] f(x) == #[trigger] f(y) implies x == y by {
        if x != y {
            lemma_newer_total(x, y);
            let i = choose|i: int| 0 <= i < names.len() && names[i] == x;
            let j = choose|j: int| 0 <= j < names.len() && names[j] == y;
            assert(snapshot_timestamp(names[i]) is Some);
            assert(snapshot_timestamp(names[j]) is Some);
        }
    }
    vstd::set_lib::lemma_map_size(d, d.map(f), f);
    let lo = day_of(now) - DAILY_RETENTION_DAYS + 1;
    let hi = day_of(now) + 1;
    vstd::set_lib::lemma_int_range(lo, hi);
    assert forall|k: int| d.map(f).contains(k) implies vstd::set_lib::set_int_range(lo, hi).contains(k) by {
        let x = choose|x: Seq<char>| d.contains(x) && f(x) == k;
    }
    vstd::set_lib::lemma_len_subset(d.map(f), vstd::set_lib::set_int_range(lo, hi));
}

proof fn lemma_monthly_bound(names: Seq<Seq<char>>, now: u128)
    ensures
        ({
            let m = Set::new(|x: Seq<char>| names.contains(x) && snapshot_timestamp(x) is Some
                && month_of(now) - MONTHLY_RETENTION_MONTHS < month_of(snapshot_timestamp(x)->0) <= month_of(now)
                && last_of_its_month(names, x));
            m.finite() && m.len() <= MONTHLY_RETENTION_MONTHS
        }),
{
    let m = Set::new(|x: Seq<char>| names.contains(x) && snapshot_timestamp(x) is Some
        && month_of(now) - MONTHLY_RETENTION_MONTHS < month_of(snapshot_timestamp(x)->0) <= month_of(now)
        && last_of_its_month(names, x));
    vstd::seq_lib::seq_to_set_is_finite(names);
    vstd::set_lib::lemma_len_subset(m, names.to_set());
    let f = |x: Seq<char>| month_of(snapshot_timestamp(x)->0);
    assert forall|x: Seq<char>, y: Seq<char>| m.contains(x) && m.contains(y) && #[trigger] f(x) == #[trigger] f(y) implies x == y by {
        if x != y {
            lemma_newer_total(x, y);
            let i = choose|i: int| 0 <= i < names.len() && names[i] == x;
            let j = choose|j: int| 0 <= j < names.len() && names[j] == y;
            assert(snapshot_timestamp(names[i]) is Some);
            assert(snapshot_timestamp(names[j]) is Some);
        }
    }
    vstd::set_lib::lemma_map_size(m, m.map(f), f);
    let lo = month_of(now) - MONTHLY_RETENTION_MONTHS + 1;
    let hi = month_of(now) + 1;
    vstd::set_lib::lemma_int_range(lo, hi);
    assert forall|k: int| m.map(f).contains(k) implies vstd::set_lib::set_int_range(lo, hi).contains(k) by {
        let x = choose|x: Seq<char>| m.contains(x) && f(x) == k;
    }
    vstd::set_lib::lemma_len_subset(m.map(f), vstd::set_lib::set_int_range(lo, hi));
}

/// A backup folder never keeps more than `RECENT_SAVE_COUNT` +
/// `DAILY_RETENTION_DAYS` + `MONTHLY_RETENTION_MONTHS` snapshots (15), however
/// many it holds.
pub proof fn law_retention_keeps_at_most_fifteen(names: Seq<Seq<char>>, now: u128)
    ensures
        kept_names(names, now).finite(),
        kept_names(names, now).len() <= 15,
{
    lemma_recent_bound(names);
    lemma_daily_bound(names, now);
    lemma_monthly_bound(names, now);
    let r = Set::new(|x: Seq<char>| names.contains(x) && snapshot_timestamp(x) is Some && among_recent(names, x));
    let d = Set::new(|x: Seq<char>| names.contains(x) && snapshot_timestamp(x) is Some
        && day_of(now) - DAILY_RETENTION_DAYS < day_of(snapshot_timestamp(x)->0) <= day_of(now)
        && last_of_its_day(names, x));
    let m = Set::new(|x: Seq<char>| names.contains(x) && snapshot_timestamp(x) is Some
        && month_of(now) - MONTHLY_RETENTION_MONTHS < month_of(snapshot_timestamp(x)->0) <= month_of(now)
        && last_of_its_month(names, x));
    vstd::set_lib::lemma_len_union(r, d);
    vstd::set::axiom_set_union_finite(r, d);
    vstd::set_lib::lemma_len_union(r.union(d), m);
    vstd::set::axiom_set_union_finite(r.union(d), m);
    assert(kept_names(names, now).subset_of(r.union(d).union(m)));
    vstd::set_lib::lemma_len_subset(kept_names(names, now), r.union(d).union(m));
}

} // verus!
