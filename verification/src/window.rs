//! The decisions behind the main window: the overall brightness slider and
//! the per-monitor sliders, the average shown when the monitors are
//! refreshed, nicknames, and the light/dark theme toggle.
use vstd::prelude::*;

use crate::config::Config;
use crate::monitor::{lemma_percent_of_level_out_of_100, percent_of, Monitor};
use crate::text::{append_decimal, decimal, lemma_decimal_reads_back, parse_u8, push_char, str_eq};

verus! {

// ---------------------------------------------------------------------------
// Specification
// ---------------------------------------------------------------------------

/// `m` set to `level` out of 100, everything else kept.
pub open spec fn with_level(m: Monitor, level: u8) -> Monitor {
    Monitor { value: level, max_value: 100, ..m }
}

/// The monitors after the overall slider moved to `level`: each one that
/// supports brightness is set to `level` out of 100, the others are kept.
pub open spec fn overall_applied(ms: Seq<Monitor>, level: u8) -> Seq<Monitor> {
    Seq::new(
        ms.len(),
        |k: int|
            if ms[k].supports_brightness {
                with_level(ms[k], level)
            } else {
                ms[k]
            },
    )
}

/// The monitors after the slider of display `id` moved to `level`: the
/// first monitor with that number is set to `level` out of 100.
pub open spec fn level_set(ms: Seq<Monitor>, id: u32, level: u8) -> Seq<Monitor> {
    match first_with_id(ms, id) {
        Some(k) => ms.update(k, with_level(ms[k], level)),
        None => ms,
    }
}

/// The theme that the header bar's toggle switches to after `current`.
pub open spec fn next_theme_of(current: Seq<char>) -> Seq<char> {
    if current == "dark"@ {
        "light"@
    } else {
        "dark"@
    }
}

/// The percentages of the monitors that support brightness, in order.
pub open spec fn supported_percents(ms: Seq<Monitor>) -> Seq<u8>
    decreases ms.len(),
{
    if ms.len() == 0 {
        Seq::empty()
    } else {
        let rest = supported_percents(ms.drop_last());
        if ms.last().supports_brightness {
            rest.push(percent_of(ms.last().value, ms.last().max_value))
        } else {
            rest
        }
    }
}

/// The display numbers of the monitors that support brightness, in order.
pub open spec fn supported_ids(ms: Seq<Monitor>) -> Seq<u32>
    decreases ms.len(),
{
    if ms.len() == 0 {
        Seq::empty()
    } else {
        let rest = supported_ids(ms.drop_last());
        if ms.last().supports_brightness {
            rest.push(ms.last().display_id)
        } else {
            rest
        }
    }
}

/// The sum of `s`.
pub open spec fn sum(s: Seq<u8>) -> nat
    decreases s.len(),
{
    if s.len() == 0 {
        0
    } else {
        sum(s.drop_last()) + s.last() as nat
    }
}

/// The mean percentage (rounded down) of the monitors that support
/// brightness; 0 when none does.
pub open spec fn average_percent_of(ms: Seq<Monitor>) -> u8 {
    let p = supported_percents(ms);
    if p.len() == 0 {
        0
    } else {
        (sum(p) / p.len()) as u8
    }
}

/// The position of the first monitor with display number `id`.
pub open spec fn first_with_id(ms: Seq<Monitor>, id: u32) -> Option<int>
    decreases ms.len(),
{
    if ms.len() == 0 {
        None
    } else if ms[0].display_id == id {
        Some(0)
    } else {
        match first_with_id(ms.drop_first(), id) {
            Some(k) => Some(k + 1),
            None => None,
        }
    }
}

/// `after` is `before` with the name `name`.
pub open spec fn renamed(before: Monitor, after: Monitor, name: Seq<char>) -> bool {
    &&& after.display_id == before.display_id
    &&& after.edid_key == before.edid_key
    &&& after.name@ == name
    &&& after.value == before.value
    &&& after.max_value == before.max_value
    &&& after.supports_brightness == before.supports_brightness
}

/// The colour scheme that the window asks the style manager for.
#[derive(Debug, Clone, Copy, PartialEq, Eq, Structural)]
pub enum ColorScheme {
    /// Follow the system.
    Default,
    ForceDark,
    ForceLight,
}

// ---------------------------------------------------------------------------
// Lemmas
// ---------------------------------------------------------------------------

proof fn lemma_supported_take(ms: Seq<Monitor>, i: int)
    requires
        0 <= i < ms.len(),
    ensures
        ms.take(i + 1).drop_last() == ms.take(i),
        ms.take(i + 1).last() == ms[i],
{
    assert(ms.take(i + 1).drop_last() =~= ms.take(i));
}

/// The percentages and their sum only grow along the monitor list.
proof fn lemma_supported_prefix(ms: Seq<Monitor>, i: int)
    requires
        0 <= i <= ms.len(),
    ensures
        supported_percents(ms.take(i)).len() <= supported_percents(ms).len(),
        sum(supported_percents(ms.take(i))) <= sum(supported_percents(ms)),
    decreases ms.len() - i,
{
    if i < ms.len() {
        lemma_supported_take(ms, i);
        lemma_supported_prefix(ms, i + 1);
        let prev = supported_percents(ms.take(i));
        if ms[i].supports_brightness {
            let p = percent_of(ms[i].value, ms[i].max_value);
            assert(supported_percents(ms.take(i + 1)) == prev.push(p));
            assert(prev.push(p).drop_last() =~= prev);
        }
    } else {
        assert(ms.take(i) =~= ms);
    }
}

/// Each supported percentage is at most 255, so their sum is at most 255
/// times their number.
proof fn lemma_sum_bound(s: Seq<u8>)
    ensures
        sum(s) <= 255 * s.len(),
    decreases s.len(),
{
    if s.len() > 0 {
        lemma_sum_bound(s.drop_last());
    }
}

/// A list of `n` percentages that are all `level` sums to `n * level`.
proof fn lemma_sum_constant(s: Seq<u8>, level: u8)
    requires
        forall|k: int| 0 <= k < s.len() ==> s[k] == level,
    ensures
        sum(s) == s.len() * level,
    decreases s.len(),
{
    if s.len() > 0 {
        lemma_sum_constant(s.drop_last(), level);
        assert(sum(s) == (s.len() - 1) * level + level);
        assert((s.len() - 1) * level + level == s.len() * level) by (nonlinear_arith);
    }
}

/// After every supporting monitor is set to `level`, each supported
/// percentage is `level`.
proof fn lemma_overall_percents(before: Seq<Monitor>, after: Seq<Monitor>, level: u8)
    requires
        after.len() == before.len(),
        forall|k: int|
            0 <= k < before.len() ==> #[trigger] after[k] == (if before[k].supports_brightness {
                with_level(before[k], level)
            } else {
                before[k]
            }),
    ensures
        supported_percents(after).len() == supported_percents(before).len(),
        forall|k: int|
            0 <= k < supported_percents(after).len() ==> supported_percents(after)[k] == level,
    decreases before.len(),
{
    if before.len() > 0 {
        let b = before.drop_last();
        let a = after.drop_last();
        assert forall|k: int| 0 <= k < b.len() implies #[trigger] a[k] == (if b[k].supports_brightness {
            with_level(b[k], level)
        } else {
            b[k]
        }) by {
            assert(a[k] == after[k]);
        }
        lemma_overall_percents(b, a, level);
        let last = after[after.len() - 1];
        assert(last == after.last());
        if before.last().supports_brightness {
            lemma_percent_of_level_out_of_100(level);
        }
    }
}

/// The position that `first_with_id` gives holds a monitor with that display
/// number.
proof fn lemma_first_with_id(ms: Seq<Monitor>, id: u32)
    ensures
        first_with_id(ms, id) matches Some(k) ==> 0 <= k < ms.len() && ms[k].display_id == id,
    decreases ms.len(),
{
    if ms.len() > 0 && ms[0].display_id != id {
        lemma_first_with_id(ms.drop_first(), id);
    }
}

/// Moving the overall slider to `level` makes the average of the monitors
/// that support brightness `level`, so the slider stays where it was put
/// after a refresh of the same monitors.
pub proof fn lemma_overall_level_average(ms: Seq<Monitor>, level: u8)
    requires
        supported_percents(ms).len() > 0,
    ensures
        average_percent_of(overall_applied(ms, level)) == level,
{
    let after = overall_applied(ms, level);
    lemma_overall_percents(ms, after, level);
    let p = supported_percents(after);
    lemma_sum_constant(p, level);
    assert(sum(p) / p.len() == level) by (nonlinear_arith)
        requires
            sum(p) == p.len() * level,
            p.len() > 0,
    ;
}

/// Moving the overall slider to `level` sets every monitor that supports
/// brightness to `level` percent and leaves the others as they were.
pub proof fn lemma_overall_level_percent(ms: Seq<Monitor>, level: u8, k: int)
    requires
        0 <= k < ms.len(),
    ensures
        ms[k].supports_brightness ==> percent_of(
            overall_applied(ms, level)[k].value,
            overall_applied(ms, level)[k].max_value,
        ) == level,
        !ms[k].supports_brightness ==> overall_applied(ms, level)[k] == ms[k],
{
    lemma_percent_of_level_out_of_100(level);
}

/// Moving the slider of display `id` to `level` gives that monitor `level`
/// percent and leaves every other monitor as it was.
pub proof fn lemma_level_set_percent(ms: Seq<Monitor>, id: u32, level: u8, j: int)
    requires
        0 <= j < ms.len(),
    ensures
        first_with_id(ms, id) == Some(j) ==> percent_of(
            level_set(ms, id, level)[j].value,
            level_set(ms, id, level)[j].max_value,
        ) == level,
        first_with_id(ms, id) != Some(j) ==> level_set(ms, id, level)[j] == ms[j],
        level_set(ms, id, level).len() == ms.len(),
{
    lemma_first_with_id(ms, id);
    lemma_percent_of_level_out_of_100(level);
}

/// Toggling the theme twice from dark or light comes back to it.
pub proof fn lemma_theme_toggle_twice(theme: Seq<char>)
    requires
        theme == "dark"@ || theme == "light"@,
    ensures
        next_theme_of(next_theme_of(theme)) == theme,
{
    reveal_strlit("dark");
    reveal_strlit("light");
    assert("dark"@ != "light"@) by {
        assert("dark"@[0] != "light"@[0]);
    }
}

/// The monitors that support brightness, in list order.
pub open spec fn supporting_monitors(ms: Seq<Monitor>) -> Seq<Monitor> {
    ms.filter(|m: Monitor| m.supports_brightness)
}

/// The display numbers that the overall slider and the tray presets send a
/// level to are those of all the monitors that support brightness, whatever
/// their current reading, in list order: every supporting monitor's number
/// is among them, and they number as many as the supporting monitors.
pub proof fn lemma_supported_ids_are_all_supporting_monitors(ms: Seq<Monitor>)
    ensures
        supported_ids(ms) == supporting_monitors(ms).map_values(|m: Monitor| m.display_id),
        supported_ids(ms).len() == supporting_monitors(ms).len(),
        forall|k: int|
            0 <= k < ms.len() && ms[k].supports_brightness ==> supported_ids(ms).contains(
                #[trigger] ms[k].display_id,
            ),
    decreases ms.len(),
{
    reveal(Seq::filter);
    if ms.len() > 0 {
        let rest = ms.drop_last();
        lemma_supported_ids_are_all_supporting_monitors(rest);
        let ids = supported_ids(ms);
        let rest_ids = supported_ids(rest);
        assert(supporting_monitors(ms) == (if ms.last().supports_brightness {
            supporting_monitors(rest).push(ms.last())
        } else {
            supporting_monitors(rest)
        }));
        assert(ids =~= supporting_monitors(ms).map_values(|m: Monitor| m.display_id));
        assert forall|k: int|
            0 <= k < ms.len() && ms[k].supports_brightness implies ids.contains(
            #[trigger] ms[k].display_id,
        ) by {
            if k < ms.len() - 1 {
                assert(ms[k] == rest[k]);
                let j = choose|j: int| 0 <= j < rest_ids.len() && rest_ids[j] == rest[k].display_id;
                assert(ids[j] == rest_ids[j]);
            } else {
                assert(ids[ids.len() - 1] == ms.last().display_id);
            }
        }
    }
}

/// The update of the slider of display `id` goes to the first monitor with
/// that number, whenever one has it: the position used holds that number and
/// no earlier monitor does, and there is no position only when no monitor
/// has the number.
pub proof fn lemma_first_with_id_is_first_match(ms: Seq<Monitor>, id: u32)
    ensures
        first_with_id(ms, id) matches Some(j) ==> {
            &&& 0 <= j < ms.len()
            &&& ms[j].display_id == id
            &&& forall|i: int| 0 <= i < j ==> ms[i].display_id != id
        },
        first_with_id(ms, id) is None <==> forall|k: int| 0 <= k < ms.len() ==> ms[k].display_id != id,
    decreases ms.len(),
{
    if ms.len() > 0 && ms[0].display_id != id {
        let rest = ms.drop_first();
        lemma_first_with_id_is_first_match(rest, id);
        assert forall|i: int| 0 < i < ms.len() implies ms[i] == rest[i - 1] by {}
        if first_with_id(ms, id) is None {
            assert forall|k: int| 0 <= k < ms.len() implies ms[k].display_id != id by {
                if k > 0 {
                    assert(ms[k] == rest[k - 1]);
                }
            }
        } else {
            let j = first_with_id(ms, id)->0;
            assert forall|i: int| 0 <= i < j implies ms[i].display_id != id by {
                if i > 0 {
                    assert(ms[i] == rest[i - 1]);
                }
            }
        }
        if forall|k: int| 0 <= k < ms.len() ==> ms[k].display_id != id {
            assert forall|k: int| 0 <= k < rest.len() implies rest[k].display_id != id by {
                assert(rest[k] == ms[k + 1]);
            }
        }
    }
}

/// Moving the slider of display `id` to `level`: when some monitor has that
/// number, the first such monitor afterwards reads `level` out of 100 with
/// its identity kept, and every other monitor is unchanged; when none has
/// it, nothing changes.
pub proof fn lemma_level_set_updates_first_match(ms: Seq<Monitor>, id: u32, level: u8, j: int)
    ensures
        level_set(ms, id, level).len() == ms.len(),
        (0 <= j < ms.len() && ms[j].display_id == id && forall|i: int|
            0 <= i < j ==> ms[i].display_id != id) ==> {
            let after = level_set(ms, id, level);
            &&& after[j].value == level
            &&& after[j].max_value == 100
            &&& after[j].display_id == id
            &&& after[j].edid_key == ms[j].edid_key
            &&& after[j].name == ms[j].name
            &&& after[j].supports_brightness == ms[j].supports_brightness
            &&& forall|i: int| 0 <= i < ms.len() && i != j ==> after[i] == ms[i]
        },
        (forall|k: int| 0 <= k < ms.len() ==> ms[k].display_id != id) ==> level_set(ms, id, level)
            == ms,
{
    lemma_first_with_id_is_first_match(ms, id);
    if 0 <= j < ms.len() && ms[j].display_id == id && forall|i: int|
        0 <= i < j ==> ms[i].display_id != id {
        let f = first_with_id(ms, id);
        assert(f is Some) by {
            if f is None {
                assert(ms[j].display_id != id);
            }
        }
        let k = f->0;
        if k < j {
            assert(ms[k].display_id != id);
        }
        if k > j {
            assert(ms[j].display_id != id);
        }
    }
}

// ---------------------------------------------------------------------------
// Sliders and the average
// ---------------------------------------------------------------------------

/// The mean brightness percentage of the monitors that support brightness,
/// shown on the overall slider after a refresh.
pub fn average_percent(monitors: &[Monitor]) -> (avg: u8)
    requires
        supported_percents(monitors@).len() <= u32::MAX,
        sum(supported_percents(monitors@)) <= u32::MAX,
    ensures
        avg == average_percent_of(monitors@),
{
    let ghost ms = monitors@;
    let n = monitors.len();
    let mut total: u32 = 0;
    let mut count: u32 = 0;
    let mut i: usize = 0;
    assert(ms.take(0) =~= Seq::<Monitor>::empty());
    while i < n
        invariant
            n == ms.len(),
            ms == monitors@,
            i <= n,
            supported_percents(ms).len() <= u32::MAX,
            sum(supported_percents(ms)) <= u32::MAX,
            count as nat == supported_percents(ms.take(i as int)).len(),
            total as nat == sum(supported_percents(ms.take(i as int))),
        decreases n - i,
    {
        proof {
            lemma_supported_take(ms, i as int);
            lemma_supported_prefix(ms, i + 1);
        }
        let ghost prev = supported_percents(ms.take(i as int));
        if monitors[i].supports_brightness {
            let p = monitors[i].percent();
            assert(supported_percents(ms.take(i + 1)) == prev.push(p));
            assert(prev.push(p).drop_last() =~= prev);
            total = total + p as u32;
            count = count + 1;
        } else {
            assert(supported_percents(ms.take(i + 1)) == prev);
        }
        i += 1;
    }
    assert(ms.take(n as int) =~= ms);
    if count == 0 {
        return 0;
    }
    proof {
        lemma_sum_bound(supported_percents(ms));
    }
    assert(total / count <= 255) by (nonlinear_arith)
        requires
            total <= 255 * count,
            count > 0,
    ;
    (total / count) as u8
}

/// Moves the overall slider to `level`: every monitor that supports
/// brightness is set to `level` out of 100, the others are left alone.
/// Returns the display numbers to send the level to, in order.
pub fn apply_overall_level(monitors: &mut Vec<Monitor>, level: u8) -> (ids: Vec<u32>)
    ensures
        final(monitors)@ == overall_applied(old(monitors)@, level),
        ids@ == supported_ids(old(monitors)@),
        forall|k: int|
            0 <= k < old(monitors)@.len() && old(monitors)@[k].supports_brightness
                ==> ids@.contains(#[trigger] old(monitors)@[k].display_id),
        ids@.len() == supporting_monitors(old(monitors)@).len(),
{
    let ghost before = monitors@;
    let n = monitors.len();
    let mut ids: Vec<u32> = Vec::new();
    let mut i: usize = 0;
    assert(before.take(0) =~= Seq::<Monitor>::empty());
    while i < n
        invariant
            n == before.len() == monitors@.len(),
            i <= n,
            forall|k: int|
                0 <= k < i ==> #[trigger] monitors@[k] == (if before[k].supports_brightness {
                    with_level(before[k], level)
                } else {
                    before[k]
                }),
            forall|k: int| i <= k < n ==> #[trigger] monitors@[k] == before[k],
            ids@ == supported_ids(before.take(i as int)),
        decreases n - i,
    {
        proof {
            lemma_supported_take(before, i as int);
        }
        if monitors[i].supports_brightness {
            let updated = Monitor {
                display_id: monitors[i].display_id,
                edid_key: monitors[i].edid_key.clone(),
                name: monitors[i].name.clone(),
                value: level,
                max_value: 100,
                supports_brightness: true,
            };
            ids.push(monitors[i].display_id);
            monitors.set(i, updated);
        }
        i += 1;
    }
    assert(before.take(n as int) =~= before);
    assert(monitors@ =~= overall_applied(before, level));
    proof {
        lemma_supported_ids_are_all_supporting_monitors(before);
    }
    ids
}

/// Moves the slider of the monitor with display number `display_id` to
/// `level`: the first monitor with that number is set to `level` out of 100;
/// without one, nothing changes.
pub fn set_monitor_level(monitors: &mut Vec<Monitor>, display_id: u32, level: u8)
    ensures
        final(monitors)@ == level_set(old(monitors)@, display_id, level),
        final(monitors)@.len() == old(monitors)@.len(),
        forall|j: int|
            0 <= j < old(monitors)@.len() && old(monitors)@[j].display_id == display_id && (forall|
                i: int,
            |
                0 <= i < j ==> old(monitors)@[i].display_id != display_id) ==> {
                &&& (#[trigger] final(monitors)@[j]).value == level
                &&& final(monitors)@[j].max_value == 100
                &&& final(monitors)@[j].display_id == display_id
                &&& final(monitors)@[j].edid_key == old(monitors)@[j].edid_key
                &&& final(monitors)@[j].name == old(monitors)@[j].name
                &&& final(monitors)@[j].supports_brightness == old(
                    monitors,
                )@[j].supports_brightness
            },
        forall|i: int|
            0 <= i < old(monitors)@.len() && old(monitors)@[i].display_id != display_id
                ==> #[trigger] final(monitors)@[i] == old(monitors)@[i],
        (forall|k: int| 0 <= k < old(monitors)@.len() ==> old(monitors)@[k].display_id != display_id)
            ==> final(monitors)@ == old(monitors)@,
{
    let ghost before = monitors@;
    set_level_of_first(monitors, display_id, level);
    proof {
        lemma_level_set_updates_first_match(before, display_id, level, 0);
        lemma_first_with_id_is_first_match(before, display_id);
        assert forall|j: int|
            0 <= j < before.len() && before[j].display_id == display_id && (forall|i: int|
                0 <= i < j ==> before[i].display_id != display_id) implies {
            &&& (#[trigger] monitors@[j]).value == level
            &&& monitors@[j].max_value == 100
            &&& monitors@[j].display_id == display_id
            &&& monitors@[j].edid_key == before[j].edid_key
            &&& monitors@[j].name == before[j].name
            &&& monitors@[j].supports_brightness == before[j].supports_brightness
        } by {
            lemma_level_set_updates_first_match(before, display_id, level, j);
        }
        assert forall|i: int|
            0 <= i < before.len() && before[i].display_id != display_id implies #[trigger] monitors@[i]
            == before[i] by {
            match first_with_id(before, display_id) {
                Some(j) => {
                    lemma_level_set_updates_first_match(before, display_id, level, j);
                },
                None => {},
            }
        }
    }
}

fn set_level_of_first(monitors: &mut Vec<Monitor>, display_id: u32, level: u8)
    ensures
        final(monitors)@ == level_set(old(monitors)@, display_id, level),
{
    let ghost before = monitors@;
    let n = monitors.len();
    let mut i: usize = 0;
    assert(before.skip(0) =~= before);
    while i < n
        invariant
            n == before.len() == monitors@.len(),
            monitors@ == before,
            old(monitors)@ == before,
            i <= n,
            first_with_id(before, display_id) == (match first_with_id(
                before.skip(i as int),
                display_id,
            ) {
                Some(k) => Some(k + i),
                None => None,
            }),
        decreases n - i,
    {
        assert(before.skip(i as int).drop_first() =~= before.skip(i + 1));
        assert(before.skip(i as int)[0] == before[i as int]);
        if monitors[i].display_id == display_id {
            let updated = Monitor {
                display_id: monitors[i].display_id,
                edid_key: monitors[i].edid_key.clone(),
                name: monitors[i].name.clone(),
                value: level,
                max_value: 100,
                supports_brightness: monitors[i].supports_brightness,
            };
            assert(updated == with_level(before[i as int], level));
            monitors.set(i, updated);
            assert(first_with_id(before, display_id) == Some(i as int));
            assert(monitors@ =~= before.update(i as int, with_level(before[i as int], level)));
            return;
        }
        i += 1;
    }
    assert(before.skip(n as int) =~= Seq::<Monitor>::empty());
}

/// The percentage shown under a monitor's slider: its own for a monitor
/// that supports brightness, 0 for one that does not.
pub fn shown_percent(monitor: &Monitor) -> (p: u8)
    ensures
        p == (if monitor.supports_brightness {
            percent_of(monitor.value, monitor.max_value)
        } else {
            0
        }),
{
    if monitor.supports_brightness {
        monitor.percent()
    } else {
        0
    }
}

/// The label of a slider at `level`, such as `75%`.
pub fn percent_label(level: u8) -> (label: String)
    ensures
        label@ == decimal(level as nat).push('%'),
        label@.len() >= 2,
        label@.last() == '%',
        parse_u8(label@.drop_last()) == Some(level),
{
    let mut label = String::new();
    append_decimal(&mut label, level);
    push_char(&mut label, '%');
    proof {
        lemma_percent_label_reads_back(level);
        assert(label@.drop_last() =~= decimal(level as nat));
    }
    label
}

/// The digits of a slider's label, without its `%`, read back as the level.
pub proof fn lemma_percent_label_reads_back(level: u8)
    ensures
        parse_u8(decimal(level as nat)) == Some(level),
{
    lemma_decimal_reads_back(level as nat);
}

/// Gives each monitor that has a nickname in `config` that nickname as its
/// name.
pub fn apply_nicknames(monitors: &mut Vec<Monitor>, config: &Config)
    ensures
        final(monitors)@.len() == old(monitors)@.len(),
        forall|k: int|
            0 <= k < old(monitors)@.len() ==> renamed(
                old(monitors)@[k],
                #[trigger] final(monitors)@[k],
                if config.nicknames_view().dom().contains(old(monitors)@[k].edid_key@) {
                    config.nicknames_view()[old(monitors)@[k].edid_key@]
                } else {
                    old(monitors)@[k].name@
                },
            ),
{
    let ghost before = monitors@;
    let n = monitors.len();
    let mut i: usize = 0;
    while i < n
        invariant
            n == before.len() == monitors@.len(),
            i <= n,
            forall|k: int|
                0 <= k < i ==> renamed(
                    before[k],
                    #[trigger] monitors@[k],
                    if config.nicknames_view().dom().contains(before[k].edid_key@) {
                        config.nicknames_view()[before[k].edid_key@]
                    } else {
                        before[k].name@
                    },
                ),
            forall|k: int| i <= k < n ==> #[trigger] monitors@[k] == before[k],
        decreases n - i,
    {
        if let Some(nickname) = config.nickname(monitors[i].edid_key.as_str()) {
            let updated = Monitor {
                display_id: monitors[i].display_id,
                edid_key: monitors[i].edid_key.clone(),
                name: nickname,
                value: monitors[i].value,
                max_value: monitors[i].max_value,
                supports_brightness: monitors[i].supports_brightness,
            };
            monitors.set(i, updated);
        }
        i += 1;
    }
}

// ---------------------------------------------------------------------------
// Theme
// ---------------------------------------------------------------------------

/// The theme that the header bar's toggle switches to: light after dark,
/// dark after anything else.
pub fn next_theme(current: &str) -> (next: String)
    ensures
        next@ == next_theme_of(current@),
{
    if str_eq(current, "dark") {
        "light".to_owned()
    } else {
        "dark".to_owned()
    }
}

/// The icon of the theme toggle: a night sky under the dark theme, a clear
/// sky otherwise.
pub fn theme_icon_name(config: &Config) -> (icon: &'static str)
    ensures
        icon@ == (if config.theme@ == "dark"@ {
            "weather-clear-night-symbolic"@
        } else {
            "weather-clear-symbolic"@
        }),
{
    if str_eq(config.theme.as_str(), "dark") {
        "weather-clear-night-symbolic"
    } else {
        "weather-clear-symbolic"
    }
}

/// The colour scheme for the configured theme: forced dark or light for
/// `dark` and `light`, the system's for anything else.
pub fn color_scheme(config: &Config) -> (scheme: ColorScheme)
    ensures
        scheme == (if config.theme@ == "dark"@ {
            ColorScheme::ForceDark
        } else if config.theme@ == "light"@ {
            ColorScheme::ForceLight
        } else {
            ColorScheme::Default
        }),
{
    if str_eq(config.theme.as_str(), "dark") {
        ColorScheme::ForceDark
    } else if str_eq(config.theme.as_str(), "light") {
        ColorScheme::ForceLight
    } else {
        ColorScheme::Default
    }
}

} // verus!
