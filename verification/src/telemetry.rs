//! Central store for everything the sensors produce, and its one-line summary.

use vstd::prelude::*;
use vstd::string::*;
use crate::clock::{is_stale, stale, taken_by};
use crate::gnss::{Coord, FixQuality, Gga, Reading, Rmc, fix_after, fix_changes, with_reading};
use crate::imu::{Acceleration, Orientation};
use crate::imu_task::with_input;
use crate::text::{
    dec, law_written_numbers_differ, lemma_padded_len, padded, pow10, push_dec, push_padded,
};
use crate::wire::stale_text;

verus! {

/// Latest reading from every sensor. `None` means nothing received yet;
/// the `*_updated` stamps let a consumer decide when data is stale. They count
/// the clock's ticks since the board started.
#[derive(Clone, Copy, Debug, PartialEq, Eq)]
pub struct Telemetry {
    /// Position, fix quality, satellites, altitude (from GNSS `GGA`).
    pub gga: Option<Gga>,
    /// Date, speed and course over ground (from GNSS `RMC`).
    pub rmc: Option<Rmc>,
    pub gnss_updated: Option<u64>,
    /// Absolute orientation (rotation vector) from the IMU.
    pub orientation: Option<Orientation>,
    /// Raw acceleration, gravity included, from the IMU.
    pub acceleration: Option<Acceleration>,
    pub imu_updated: Option<u64>,
}

impl Default for Telemetry {
    fn default() -> (t: Telemetry)
        ensures
            t == no_readings(),
    {
        Telemetry {
            gga: None,
            rmc: None,
            gnss_updated: None,
            orientation: None,
            acceleration: None,
            imu_updated: None,
        }
    }
}

/// The store before any sensor has reported.
pub open spec fn no_readings() -> Telemetry {
    Telemetry {
        gga: None,
        rmc: None,
        gnss_updated: None,
        orientation: None,
        acceleration: None,
        imu_updated: None,
    }
}

/// `(latitude, longitude)`, if there is a fix.
pub open spec fn position_of(t: Telemetry) -> Option<(Coord, Coord)> {
    if t.fixed() {
        Some((t.gga->Some_0.latitude, t.gga->Some_0.longitude))
    } else {
        None
    }
}

impl Telemetry {
    /// Whether the receiver's last `GGA` came with a fix.
    pub open spec fn fixed(self) -> bool {
        self.gga matches Some(g) && g.fix != FixQuality::NoFix
    }

    /// Whether the GNSS currently has a position fix.
    pub fn has_fix(&self) -> (b: bool)
        ensures
            b == self.fixed(),
    {
        match self.gga {
            Some(g) => g.fix != FixQuality::NoFix,
            None => false,
        }
    }

    /// `(latitude, longitude)`, if there is a fix.
    pub fn position(&self) -> (p: Option<(Coord, Coord)>)
        ensures
            p == position_of(*self),
    {
        match self.gga {
            Some(g) => if g.fix != FixQuality::NoFix {
                Some((g.latitude, g.longitude))
            } else {
                None
            },
            None => None,
        }
    }
}

impl Telemetry {
    /// Whether no stamp is from the future.
    pub open spec fn stamped_by(self, now: u64) -> bool {
        taken_by(self.gnss_updated, now) && taken_by(self.imu_updated, now)
    }
}

/// What a number is scaled by to keep so many decimals: a power of ten, as far
/// as 64 bits go.
pub open spec fn scale_of(decimals: u8) -> int {
    if decimals <= 19 {
        pow10(decimals as nat) as int
    } else {
        0xFFFF_FFFF_FFFF_FFFF
    }
}

proof fn lemma_pow10(n: nat)
    requires
        n <= 19,
    ensures
        1 <= pow10(n) <= pow10(19) == 10_000_000_000_000_000_000,
    decreases 19 - n,
{
    reveal_with_fuel(pow10, 20);
    if n < 19 {
        lemma_pow10(n + 1);
    }
}

fn scale(decimals: u8) -> (s: u64)
    ensures
        s == scale_of(decimals),
        s >= 1,
{
    if decimals > 19 {
        return 0xFFFF_FFFF_FFFF_FFFF;
    }
    let mut s: u64 = 1;
    let mut i: u8 = 0;
    while i < decimals
        invariant
            i <= decimals <= 19,
            s == pow10(i as nat),
            s >= 1,
        decreases decimals - i,
    {
        proof {
            lemma_pow10(i as nat + 1);
        }
        i = i + 1;
        s = 10 * s;
    }
    s
}

/// A number rounded to some decimals: its size times ten to that power, and
/// whether it is negative.
#[derive(Clone, Copy, Debug, PartialEq, Eq, Structural)]
pub struct Rounded {
    pub neg: bool,
    pub scaled: u64,
}

/// A number rendered with a fixed number of decimals.
#[derive(Clone, Copy, Debug, PartialEq, Eq, Structural)]
pub struct Fixed {
    pub neg: bool,
    pub whole: u32,
    pub frac: u32,
    pub decimals: u8,
}

/// The whole and fractional digits of a rounded number, as far as 32 bits go.
pub open spec fn fixed_of(v: Rounded, decimals: u8) -> Fixed {
    Fixed {
        neg: v.neg,
        whole: (v.scaled as int / scale_of(decimals) % 0x1_0000_0000) as u32,
        frac: (v.scaled as int % scale_of(decimals) % 0x1_0000_0000) as u32,
        decimals,
    }
}

/// `-` for a negative number, the whole digits, and a point with as many
/// fractional digits as the number has decimals, where it has any.
pub open spec fn fixed_text(f: Fixed) -> Seq<char> {
    (if f.neg {
        "-"@
    } else {
        Seq::empty()
    }) + dec(f.whole as nat) + (if f.decimals == 0 {
        Seq::empty()
    } else {
        "."@ + padded(f.frac as nat, f.decimals as nat)
    })
}

impl Fixed {
    pub fn new(v: Rounded, decimals: u8) -> (f: Fixed)
        ensures
            f == fixed_of(v, decimals),
    {
        let by: u64 = scale(decimals);
        Fixed {
            neg: v.neg,
            whole: (v.scaled / by % 0x1_0000_0000) as u32,
            frac: (v.scaled % by % 0x1_0000_0000) as u32,
            decimals,
        }
    }

    /// Appends the number.
    pub fn format(&self, out: &mut String)
        ensures
            final(out)@ == old(out)@ + fixed_text(*self),
    {
        if self.neg {
            out.append("-");
        }
        push_dec(out, self.whole as u64);
        if self.decimals != 0 {
            out.append(".");
            push_padded(out, self.frac as u64, self.decimals as u64);
        }
        assert(out@ =~= old(out)@ + fixed_text(*self));
    }
}

fn push_fixed(out: &mut String, v: Rounded, decimals: u8)
    ensures
        final(out)@ == old(out)@ + fixed_text(fixed_of(v, decimals)),
{
    Fixed::new(v, decimals).format(out);
}

/// The numbers of a summary, rounded: degrees of latitude and longitude to six
/// decimals, metres and the other degrees to one. Those of a sensor that has
/// not reported are not shown.
#[derive(Clone, Copy, Debug, PartialEq, Eq, Structural)]
pub struct SummaryValues {
    pub latitude: Rounded,
    pub longitude: Rounded,
    pub altitude: Rounded,
    pub yaw: Rounded,
    pub pitch: Rounded,
    pub roll: Rounded,
}

/// The name of a fix quality.
pub open spec fn fix_name(fix: FixQuality) -> Seq<char> {
    match fix {
        FixQuality::NoFix => "None"@,
        FixQuality::Gnss => "Gnss"@,
        FixQuality::Dgnss => "Dgnss"@,
        FixQuality::Other(n) => "Other("@ + dec(n as nat) + ")"@,
    }
}

/// The position, for a receiver with a fix.
pub open spec fn position_text(g: Gga, v: SummaryValues) -> Seq<char> {
    "pos "@ + fixed_text(fixed_of(v.latitude, 6)) + ","@ + fixed_text(fixed_of(v.longitude, 6))
        + " alt "@ + fixed_text(fixed_of(v.altitude, 1)) + "m ("@ + fix_name(g.fix) + ", "@ + dec(
        g.satellites as nat,
    ) + " sats)"@
}

/// What the summary says of the receiver.
pub open spec fn gnss_text(gga: Option<Gga>, v: SummaryValues) -> Seq<char> {
    match gga {
        Some(g) => if g.fix != FixQuality::NoFix {
            position_text(g, v)
        } else {
            "pos -- (no fix, "@ + dec(g.satellites as nat) + " sats)"@
        },
        None => "pos -- (no gnss data)"@,
    }
}

/// What the summary says of the IMU.
pub open spec fn imu_text(orientation: Option<Orientation>, v: SummaryValues) -> Seq<char> {
    match orientation {
        Some(o) => "yaw "@ + fixed_text(fixed_of(v.yaw, 1)) + " pitch "@ + fixed_text(
            fixed_of(v.pitch, 1),
        ) + " roll "@ + fixed_text(fixed_of(v.roll, 1)) + " (imu "@ + dec(o.status as nat)
            + "/3)"@,
        None => "yaw -- pitch -- roll -- (no imu data)"@,
    }
}

/// The receiver's part of the summary line.
pub open spec fn summary_left(t: Telemetry, now: u64, v: SummaryValues) -> Seq<char> {
    gnss_text(t.gga, v) + stale_text(is_stale(t.gnss_updated, now))
}

/// The IMU's part of the summary line.
pub open spec fn summary_right(t: Telemetry, now: u64, v: SummaryValues) -> Seq<char> {
    imu_text(t.orientation, v) + stale_text(is_stale(t.imu_updated, now))
}

/// The summary line, e.g.
/// `pos 52.179779,0.147946 alt 16.4m (Gnss, 6 sats) | yaw -70.8 pitch -2.9 roll -34.8 (imu 0/3)`
pub open spec fn summary_text(t: Telemetry, now: u64, v: SummaryValues) -> Seq<char> {
    summary_left(t, now, v) + " | "@ + summary_right(t, now, v)
}

/// Appends the name of a fix quality.
pub fn push_fix_name(out: &mut String, fix: FixQuality)
    ensures
        final(out)@ == old(out)@ + fix_name(fix),
{
    match fix {
        FixQuality::NoFix => out.append("None"),
        FixQuality::Gnss => out.append("Gnss"),
        FixQuality::Dgnss => out.append("Dgnss"),
        FixQuality::Other(n) => {
            out.append("Other(");
            push_dec(out, n as u64);
            out.append(")");
        },
    }
    assert(out@ =~= old(out)@ + fix_name(fix));
}

fn push_gnss(out: &mut String, gga: Option<Gga>, v: &SummaryValues)
    ensures
        final(out)@ == old(out)@ + gnss_text(gga, *v),
{
    match gga {
        Some(g) => if g.fix != FixQuality::NoFix {
            out.append("pos ");
            push_fixed(out, v.latitude, 6);
            out.append(",");
            push_fixed(out, v.longitude, 6);
            out.append(" alt ");
            push_fixed(out, v.altitude, 1);
            out.append("m (");
            push_fix_name(out, g.fix);
            out.append(", ");
            push_dec(out, g.satellites as u64);
            out.append(" sats)");
        } else {
            out.append("pos -- (no fix, ");
            push_dec(out, g.satellites as u64);
            out.append(" sats)");
        },
        None => {
            out.append("pos -- (no gnss data)");
        },
    }
    assert(out@ =~= old(out)@ + gnss_text(gga, *v));
}

fn push_imu(out: &mut String, orientation: Option<Orientation>, v: &SummaryValues)
    ensures
        final(out)@ == old(out)@ + imu_text(orientation, *v),
{
    match orientation {
        Some(o) => {
            out.append("yaw ");
            push_fixed(out, v.yaw, 1);
            out.append(" pitch ");
            push_fixed(out, v.pitch, 1);
            out.append(" roll ");
            push_fixed(out, v.roll, 1);
            out.append(" (imu ");
            push_dec(out, o.status as u64);
            out.append("/3)");
        },
        None => {
            out.append("yaw -- pitch -- roll -- (no imu data)");
        },
    }
    assert(out@ =~= old(out)@ + imu_text(orientation, *v));
}

/// The summary of the store at `now`.
pub fn summary(t: &Telemetry, now: u64, v: &SummaryValues) -> (out: String)
    requires
        t.stamped_by(now),
    ensures
        out@ == summary_text(*t, now, *v),
{
    let mut out: String = String::new();
    push_gnss(&mut out, t.gga, v);
    if stale(t.gnss_updated, now) {
        out.append(" [stale]");
    }
    out.append(" | ");
    push_imu(&mut out, t.orientation, v);
    if stale(t.imu_updated, now) {
        out.append(" [stale]");
    }
    assert(out@ =~= summary_text(*t, now, *v));
    out
}

/// The sensors do not disturb each other's readings: a sentence leaves what the
/// IMU reported alone, a packet leaves what the receiver reported alone, and
/// the order in which the two arrive does not matter.
pub proof fn law_sensors_keep_to_themselves(
    t: Telemetry,
    r: Reading,
    r_at: u64,
    p: Seq<u8>,
    p_at: u64,
)
    ensures
        ({
            let after = with_reading(t, r, r_at);
            &&& after.orientation == t.orientation
            &&& after.acceleration == t.acceleration
            &&& after.imu_updated == t.imu_updated
        }),
        ({
            let after = with_input(t, p, p_at);
            &&& after.gga == t.gga
            &&& after.rmc == t.rmc
            &&& after.gnss_updated == t.gnss_updated
        }),
        with_input(with_reading(t, r, r_at), p, p_at) == with_reading(
            with_input(t, p, p_at),
            r,
            r_at,
        ),
{
}

/// Stamps stay in the past: they do as time goes on, and a reading that arrives
/// now is stamped now.
pub proof fn law_stamps_stay_in_the_past(
    t: Telemetry,
    earlier: u64,
    now: u64,
    r: Reading,
    p: Seq<u8>,
)
    requires
        t.stamped_by(earlier),
        earlier <= now,
    ensures
        no_readings().stamped_by(earlier),
        t.stamped_by(now),
        with_reading(t, r, now).stamped_by(now),
        with_input(t, p, now).stamped_by(now),
{
}

/// A number is rendered with just its decimals: behind the point stand as many
/// digits, and whole and fraction together are the rounded number. (A fraction
/// of more than nine digits, or a whole part of more than 32 bits, does not fit
/// the parts.)
pub proof fn law_fixed_shows_its_decimals(v: Rounded, decimals: u8)
    requires
        1 <= decimals <= 9,
        v.scaled as int / scale_of(decimals) < 0x1_0000_0000,
    ensures
        ({
            let f = fixed_of(v, decimals);
            let digits = padded(f.frac as nat, decimals as nat);
            &&& f.whole * scale_of(decimals) + f.frac == v.scaled
            &&& digits.len() == decimals
            &&& fixed_text(f) == (if v.neg {
                "-"@
            } else {
                Seq::empty()
            }) + dec(f.whole as nat) + "."@ + digits
        }),
{
    let s = scale_of(decimals);
    let n = v.scaled as int;
    reveal_with_fuel(pow10, 20);
    assert(1 <= s <= 1_000_000_000);
    assert(n == (n / s) * s + n % s && 0 <= n % s < s && n / s >= 0) by (nonlinear_arith)
        requires
            s >= 1,
            n >= 0,
    ;
    lemma_padded_len(fixed_of(v, decimals).frac as nat, decimals as nat);
    assert(fixed_text(fixed_of(v, decimals)) =~= (if v.neg {
        "-"@
    } else {
        Seq::empty()
    }) + dec(fixed_of(v, decimals).whole as nat) + "."@ + padded(
        fixed_of(v, decimals).frac as nat,
        decimals as nat,
    ));
}

/// Whether `s` starts with `prefix`.
pub open spec fn starts_with(s: Seq<char>, prefix: Seq<char>) -> bool {
    s.len() >= prefix.len() && s.take(prefix.len() as int) == prefix
}

/// Whether `s` ends with `suffix`.
pub open spec fn ends_with(s: Seq<char>, suffix: Seq<char>) -> bool {
    s.len() >= suffix.len() && s.skip(s.len() - suffix.len()) == suffix
}

/// Whether `s` holds no bar, so that a bar behind it is the first.
pub open spec fn no_bar(s: Seq<char>) -> bool {
    forall|i: int| 0 <= i < s.len() ==> #[trigger] s[i] != '|'
}

pub proof fn lemma_dec_chars(n: nat)
    ensures
        dec(n).len() >= 1,
        dec(n)[0] != '-',
        no_bar(dec(n)),
    decreases n,
{
    if n >= 10 {
        lemma_dec_chars(n / 10);
    }
}

/// A rendered number starts with at most one minus sign.
proof fn lemma_fixed_chars(f: Fixed)
    ensures
        fixed_text(f).len() >= 1,
        fixed_text(f)[0] == '-' ==> fixed_text(f).len() >= 2 && fixed_text(f)[1] != '-',
        no_bar(fixed_text(f)),
{
    reveal_strlit("-");
    reveal_strlit(".");
    lemma_dec_chars(f.whole as nat);
    lemma_dec_chars(f.frac as nat);
    if f.neg {
        assert(fixed_text(f)[1] == dec(f.whole as nat)[0]);
    } else {
        assert(fixed_text(f)[0] == dec(f.whole as nat)[0]);
    }
}

proof fn lemma_gnss_text(gga: Option<Gga>, v: SummaryValues)
    ensures
        starts_with(gnss_text(gga, v), "pos --"@) <==> !(gga matches Some(g) && g.fix
            != FixQuality::NoFix),
        gnss_text(gga, v).len() >= 6,
        gnss_text(gga, v).last() == ')',
        no_bar(gnss_text(gga, v)),
{
    reveal_strlit("pos --");
    reveal_strlit("pos ");
    reveal_strlit(",");
    reveal_strlit(" alt ");
    reveal_strlit("m (");
    reveal_strlit(", ");
    reveal_strlit(" sats)");
    reveal_strlit("pos -- (no fix, ");
    reveal_strlit("pos -- (no gnss data)");
    reveal_strlit("None");
    reveal_strlit("Gnss");
    reveal_strlit("Dgnss");
    reveal_strlit("Other(");
    reveal_strlit(")");
    let text = gnss_text(gga, v);
    match gga {
        Some(g) => {
            lemma_dec_chars(g.satellites as nat);
            if g.fix != FixQuality::NoFix {
                let f = fixed_text(fixed_of(v.latitude, 6));
                lemma_fixed_chars(fixed_of(v.latitude, 6));
                lemma_fixed_chars(fixed_of(v.longitude, 6));
                lemma_fixed_chars(fixed_of(v.altitude, 1));
                if let FixQuality::Other(n) = g.fix {
                    lemma_dec_chars(n as nat);
                }
                assert(no_bar(fix_name(g.fix)));
                assert(text[4] == f[0]);
                if f[0] == '-' {
                    assert(text[5] == f[1]);
                }
                if starts_with(text, "pos --"@) {
                    assert(text.take(6)[4] == text[4] && text.take(6)[5] == text[5]);
                }
            } else {
                assert(text.take(6) =~= "pos --"@);
            }
        },
        None => {
            assert(text.take(6) =~= "pos --"@);
        },
    }
}

proof fn lemma_imu_text(orientation: Option<Orientation>, v: SummaryValues)
    ensures
        starts_with(imu_text(orientation, v), "yaw --"@) <==> orientation is None,
        imu_text(orientation, v).len() >= 6,
        imu_text(orientation, v).last() == ')',
        no_bar(imu_text(orientation, v)),
{
    reveal_strlit("yaw --");
    reveal_strlit("yaw ");
    reveal_strlit(" pitch ");
    reveal_strlit(" roll ");
    reveal_strlit(" (imu ");
    reveal_strlit("/3)");
    reveal_strlit("yaw -- pitch -- roll -- (no imu data)");
    let text = imu_text(orientation, v);
    match orientation {
        Some(o) => {
            let f = fixed_text(fixed_of(v.yaw, 1));
            lemma_fixed_chars(fixed_of(v.yaw, 1));
            lemma_fixed_chars(fixed_of(v.pitch, 1));
            lemma_fixed_chars(fixed_of(v.roll, 1));
            lemma_dec_chars(o.status as nat);
            assert(text[4] == f[0]);
            if f[0] == '-' {
                assert(text[5] == f[1]);
            }
            if starts_with(text, "yaw --"@) {
                assert(text.take(6)[4] == text[4] && text.take(6)[5] == text[5]);
            }
        },
        None => {
            assert(text.take(6) =~= "yaw --"@);
        },
    }
}

/// A text that ends in a bracket ends in the stale mark exactly when it is put
/// behind it.
proof fn lemma_stale_mark(text: Seq<char>, prefix: Seq<char>, is_stale: bool)
    requires
        text.len() >= 6,
        text.last() == ')',
        no_bar(text),
        prefix.len() == 6,
    ensures
        ends_with(text + stale_text(is_stale), " [stale]"@) <==> is_stale,
        starts_with(text + stale_text(is_stale), prefix) <==> starts_with(text, prefix),
        no_bar(text + stale_text(is_stale)),
{
    reveal_strlit(" [stale]");
    let all = text + stale_text(is_stale);
    assert(all.take(6) =~= text.take(6));
    if is_stale {
        assert(all.skip(all.len() - 8) =~= " [stale]"@);
    } else {
        assert(all =~= text);
        if ends_with(all, " [stale]"@) {
            assert(all.skip(all.len() - 8)[7] == all.last());
        }
    }
}

/// The summary line divides at its one bar into the receiver's part and the
/// IMU's. Either shows dashes exactly when there is nothing to show, and ends
/// in the stale mark exactly when its reading is stale.
pub proof fn law_summary_shows_the_state(t: Telemetry, now: u64, v: SummaryValues)
    ensures
        ({
            let left = summary_left(t, now, v);
            let right = summary_right(t, now, v);
            &&& summary_text(t, now, v) == left + " | "@ + right
            &&& no_bar(left) && no_bar(right)
            &&& starts_with(left, "pos --"@) <==> !t.fixed()
            &&& ends_with(left, " [stale]"@) <==> is_stale(t.gnss_updated, now)
            &&& starts_with(right, "yaw --"@) <==> t.orientation is None
            &&& ends_with(right, " [stale]"@) <==> is_stale(t.imu_updated, now)
        }),
{
    reveal_strlit("pos --");
    reveal_strlit("yaw --");
    lemma_gnss_text(t.gga, v);
    lemma_imu_text(t.orientation, v);
    lemma_stale_mark(gnss_text(t.gga, v), "pos --"@, is_stale(t.gnss_updated, now));
    lemma_stale_mark(imu_text(t.orientation, v), "yaw --"@, is_stale(t.imu_updated, now));
}

/// A sentence replaces the last of its own kind and nothing else, and is
/// stamped when it arrives; one that says nothing changes nothing. The last
/// fix follows the position sentences alone.
pub proof fn law_latest_of_each_kind_is_kept(
    t: Telemetry,
    g: Gga,
    r: Rmc,
    last: FixQuality,
    now: u64,
)
    ensures
        ({
            let after = with_reading(t, Reading::Gga(g), now);
            &&& after.gga == Some(g) && after.rmc == t.rmc
            &&& after.gnss_updated == Some(now)
            &&& after.fixed() <==> g.fix != FixQuality::NoFix
            &&& position_of(after) == (if g.fix == FixQuality::NoFix {
                None
            } else {
                Some((g.latitude, g.longitude))
            })
            &&& fix_after(last, Reading::Gga(g)) == g.fix
            &&& fix_changes(last, Reading::Gga(g)) <==> g.fix != last
        }),
        ({
            let after = with_reading(t, Reading::Rmc(r), now);
            &&& after.rmc == Some(r) && after.gga == t.gga
            &&& after.gnss_updated == Some(now)
            &&& position_of(after) == position_of(t)
            &&& fix_after(last, Reading::Rmc(r)) == last && !fix_changes(last, Reading::Rmc(r))
        }),
        with_reading(t, Reading::Nothing, now) == t,
        fix_after(last, Reading::Nothing) == last && !fix_changes(last, Reading::Nothing),
        position_of(no_readings()) is None,
{
}

/// The words of the summary: a position with latitude, longitude, altitude, fix
/// and satellites, each in its place; the three angles with the calibration
/// status.
pub proof fn law_summary_in_words(t: Telemetry, now: u64, v: SummaryValues)
    ensures
        t.gga matches Some(g) ==> starts_with(
            summary_left(t, now, v),
            if g.fix != FixQuality::NoFix {
                "pos "@ + fixed_text(fixed_of(v.latitude, 6)) + ","@ + fixed_text(
                    fixed_of(v.longitude, 6),
                ) + " alt "@ + fixed_text(fixed_of(v.altitude, 1)) + "m ("@ + fix_name(g.fix)
                    + ", "@ + dec(g.satellites as nat) + " sats)"@
            } else {
                "pos -- (no fix, "@ + dec(g.satellites as nat) + " sats)"@
            },
        ),
        t.gga is None ==> starts_with(summary_left(t, now, v), "pos -- (no gnss data)"@),
        t.orientation matches Some(o) ==> starts_with(
            summary_right(t, now, v),
            "yaw "@ + fixed_text(fixed_of(v.yaw, 1)) + " pitch "@ + fixed_text(
                fixed_of(v.pitch, 1),
            ) + " roll "@ + fixed_text(fixed_of(v.roll, 1)) + " (imu "@ + dec(o.status as nat)
                + "/3)"@,
        ),
        t.orientation is None ==> starts_with(
            summary_right(t, now, v),
            "yaw -- pitch -- roll -- (no imu data)"@,
        ),
        fix_name(FixQuality::Gnss) == "Gnss"@,
        fix_name(FixQuality::Dgnss) == "Dgnss"@,
{
    let l = gnss_text(t.gga, v);
    let r = imu_text(t.orientation, v);
    assert(summary_left(t, now, v).take(l.len() as int) =~= l);
    assert(summary_right(t, now, v).take(r.len() as int) =~= r);
}

/// A reading is stale when it is more than three seconds old; no reading is
/// not, and one that is stale stays so.
pub proof fn law_readings_go_stale(at: u64, now: u64, later: u64)
    requires
        at <= now <= later,
    ensures
        is_stale(Some(at), now) <==> now - at > 3 * 32_768,
        is_stale(Some(at), now) ==> is_stale(Some(at), later),
        !is_stale(None, now),
{
}

/// Every fix quality has its name, and one without a name of its own is told by
/// its number.
pub proof fn law_fix_is_named(n: u8, m: u8)
    ensures
        fix_name(FixQuality::NoFix) == "None"@,
        fix_name(FixQuality::Gnss) == "Gnss"@,
        fix_name(FixQuality::Dgnss) == "Dgnss"@,
        starts_with(fix_name(FixQuality::Other(n)), "Other("@),
        ends_with(fix_name(FixQuality::Other(n)), dec(n as nat) + ")"@),
        fix_name(FixQuality::Other(n)) == fix_name(FixQuality::Other(m)) ==> n == m,
{
    reveal_strlit("Other(");
    reveal_strlit(")");
    let a = fix_name(FixQuality::Other(n));
    let b = fix_name(FixQuality::Other(m));
    let tail = dec(n as nat) + ")"@;
    assert(a.take(6) =~= "Other("@);
    assert(a.skip(a.len() - tail.len()) =~= tail);
    if a == b {
        assert(a.subrange(6, a.len() - 1) =~= dec(n as nat));
        assert(b.subrange(6, b.len() - 1) =~= dec(m as nat));
        law_written_numbers_differ(n as nat, m as nat);
    }
}

/// Whole part and fraction that do not fit 32 bits keep their low ones, and the
/// scale stops at 64 bits: from twenty decimals on, all but the largest number
/// is fraction.
pub proof fn law_parts_keep_their_low_bits(v: Rounded, decimals: u8)
    ensures
        ({
            let f = fixed_of(v, decimals);
            &&& f.neg == v.neg && f.decimals == decimals
            &&& decimals <= 19 ==> (v.scaled as int / pow10(decimals as nat) as int - f.whole)
                % 0x1_0000_0000 == 0
            &&& decimals <= 19 ==> (v.scaled as int % pow10(decimals as nat) as int - f.frac)
                % 0x1_0000_0000 == 0
            &&& decimals > 19 && v.scaled < u64::MAX ==> f.whole == 0 && f.frac == v.scaled
                % 0x1_0000_0000
        }),
{
    let w = v.scaled as int / scale_of(decimals);
    let r = v.scaled as int % scale_of(decimals);
    assert((w - w % 0x1_0000_0000) % 0x1_0000_0000 == 0);
    assert((r - r % 0x1_0000_0000) % 0x1_0000_0000 == 0);
}

/// A number without decimals is its whole digits alone.
pub proof fn law_no_decimals_no_point(v: Rounded)
    requires
        v.scaled < 0x1_0000_0000,
    ensures
        fixed_text(fixed_of(v, 0)) == (if v.neg {
            "-"@
        } else {
            Seq::empty()
        }) + dec(v.scaled as nat),
{
    assert(pow10(0) == 1);
    assert(v.scaled as int / 1 == v.scaled);
    assert(fixed_text(fixed_of(v, 0)) =~= (if v.neg {
        "-"@
    } else {
        Seq::empty()
    }) + dec(v.scaled as nat));
}

} // verus!
