//! Reading ddcutil's output: the monitors that `ddcutil detect --brief`
//! lists, the brightness in `getvcp 10 --brief`, the input sources in
//! `capabilities` and the current input in `getvcp 60 --brief`.
use vstd::prelude::*;

use crate::monitor::Monitor;
use crate::text::{
    eq_ignore_ascii_case, eq_ignore_ascii_case_range, find_char, lemma_take_until_len,
    lemma_trim_keeps_out, lines,
    next_line, parse_hex_u8, parse_u32, parse_u8, parse_unsigned_range, push_char, split_once,
    split_whitespace, split_whitespace_ranges, starts_with, starts_with_range, string_from,
    take_until, to_chars, trim, trim_range, trim_start, trim_start_range, append_range,
};

verus! {

// ---------------------------------------------------------------------------
// Specification
// ---------------------------------------------------------------------------

/// The display name made from an EDID key `MFG:MODEL:SERIAL`: the
/// manufacturer and model, trimmed and joined by a space, or whichever of the
/// two is not empty.
pub open spec fn friendly_name_of(key: Seq<char>) -> Seq<char> {
    let mfg = trim(take_until(key, ':'));
    let model = trim(
        match split_once(key, ':') {
            Some((_, rest)) => take_until(rest, ':'),
            None => Seq::empty(),
        },
    );
    if model.len() == 0 {
        mfg
    } else if mfg.len() == 0 {
        model
    } else {
        mfg + seq![' '] + model
    }
}

/// The `(display number, EDID key, name)` triples of `ddcutil detect --brief`
/// lines: a `Display N` line sets the current display number (or clears it
/// when `N` is not a number), and each `Monitor: KEY` line under a current
/// display yields one triple.
pub open spec fn detect_entries(ls: Seq<Seq<char>>, current: Option<u32>) -> Seq<
    (u32, Seq<char>, Seq<char>),
>
    decreases ls.len(),
{
    if ls.len() == 0 {
        Seq::empty()
    } else {
        let t = trim(ls[0]);
        if starts_with(t, "Display "@) {
            detect_entries(ls.drop_first(), parse_u32(trim(t.skip("Display "@.len() as int))))
        } else if starts_with(t, "Monitor:"@) {
            let key = trim(t.skip("Monitor:"@.len() as int));
            let rest = detect_entries(ls.drop_first(), current);
            match current {
                Some(id) => seq![(id, key, friendly_name_of(key))] + rest,
                None => rest,
            }
        } else {
            detect_entries(ls.drop_first(), current)
        }
    }
}

/// The monitors that a `ddcutil detect --brief` output lists.
pub open spec fn detected(output: Seq<char>) -> Seq<(u32, Seq<char>, Seq<char>)> {
    detect_entries(lines(output), None)
}

/// A list of `(display number, EDID key, name)` triples, by the views of its
/// strings.
pub open spec fn triples_view(r: Seq<(u32, String, String)>) -> Seq<(u32, Seq<char>, Seq<char>)> {
    r.map_values(|e: (u32, String, String)| (e.0, e.1@, e.2@))
}

/// The first line whose text, without leading whitespace, starts with
/// `prefix`, and the lines after it.
pub open spec fn find_line_starting(ls: Seq<Seq<char>>, prefix: Seq<char>) -> Option<
    (Seq<char>, Seq<Seq<char>>),
>
    decreases ls.len(),
{
    if ls.len() == 0 {
        None
    } else if starts_with(trim_start(ls[0]), prefix) {
        Some((ls[0], ls.drop_first()))
    } else {
        find_line_starting(ls.drop_first(), prefix)
    }
}

/// The `(current, maximum)` brightness in a `getvcp 10 --brief` output: the
/// fourth and fifth words of the first `VCP 10` line, both of which must be
/// `u8` numbers.
pub open spec fn getvcp_brightness(output: Seq<char>) -> Option<(u8, u8)> {
    match find_line_starting(lines(output), "VCP 10"@) {
        None => None,
        Some((line, _)) => {
            let fields = split_whitespace(line);
            if fields.len() < 5 {
                None
            } else {
                match (parse_u8(fields[3]), parse_u8(fields[4])) {
                    (Some(current), Some(max)) => Some((current, max)),
                    _ => None,
                }
            }
        },
    }
}

/// The `(code, name)` pairs of the value lines that follow a
/// `Feature: 60` line: a `Values:` line (in any case) is skipped, and the
/// list ends at the first line that is not `HEX: NAME` with a hexadecimal
/// `u8` code.
pub open spec fn input_source_entries(ls: Seq<Seq<char>>) -> Seq<(u8, Seq<char>)>
    decreases ls.len(),
{
    if ls.len() == 0 {
        Seq::empty()
    } else {
        let t = trim(ls[0]);
        if eq_ignore_ascii_case(t, "Values:"@) {
            input_source_entries(ls.drop_first())
        } else {
            match split_once(t, ':') {
                None => Seq::empty(),
                Some((code, name)) => match parse_hex_u8(trim(code)) {
                    None => Seq::empty(),
                    Some(v) => seq![(v, trim(name))] + input_source_entries(ls.drop_first()),
                },
            }
        }
    }
}

/// The input sources (VCP feature 0x60) that a `capabilities` output lists.
pub open spec fn input_sources(output: Seq<char>) -> Seq<(u8, Seq<char>)> {
    match find_line_starting(lines(output), "Feature: 60 "@) {
        None => Seq::empty(),
        Some((_, rest)) => input_source_entries(rest),
    }
}

/// A list of `(code, name)` pairs, by the views of its strings.
pub open spec fn pairs_view(r: Seq<(u8, String)>) -> Seq<(u8, Seq<char>)> {
    r.map_values(|e: (u8, String)| (e.0, e.1@))
}

/// The hexadecimal digits of a `getvcp --brief` value such as `x0f` or
/// `0x0f`.
pub open spec fn hex_field_digits(field: Seq<char>) -> Option<Seq<char>> {
    if field.len() > 0 && field[0] == 'x' {
        Some(field.skip(1))
    } else if starts_with(field, "0x"@) {
        Some(field.skip(2))
    } else {
        None
    }
}

/// The current input source in a `getvcp 60 --brief` output: the last word
/// of the first `VCP 60` line, as `x` or `0x` and a hexadecimal `u8`.
pub open spec fn getvcp_input(output: Seq<char>) -> Option<u8> {
    match find_line_starting(lines(output), "VCP 60"@) {
        None => None,
        Some((line, _)) => {
            let fields = split_whitespace(line);
            if fields.len() == 0 {
                None
            } else {
                match hex_field_digits(fields.last()) {
                    Some(digits) => parse_hex_u8(digits),
                    None => None,
                }
            }
        },
    }
}

/// A display name is made of the manufacturer and model fields of the EDID
/// key only: it never holds the `:` that separates the fields.
pub proof fn lemma_friendly_name_has_no_separator(key: Seq<char>)
    ensures
        !friendly_name_of(key).contains(':'),
{
    lemma_take_until_len(key, ':');
    lemma_trim_keeps_out(take_until(key, ':'), ':');
    let model_field = match split_once(key, ':') {
        Some((_, rest)) => take_until(rest, ':'),
        None => Seq::empty(),
    };
    if let Some((_, rest)) = split_once(key, ':') {
        lemma_take_until_len(rest, ':');
    }
    lemma_trim_keeps_out(model_field, ':');
    let mfg = trim(take_until(key, ':'));
    let model = trim(model_field);
    if model.len() > 0 && mfg.len() > 0 {
        let name = mfg + seq![' '] + model;
        assert forall|i: int| 0 <= i < name.len() implies name[i] != ':' by {
            if i < mfg.len() {
                assert(name[i] == mfg[i]);
            } else if i > mfg.len() {
                assert(name[i] == model[i - mfg.len() - 1]);
            }
        }
    }
}

// ---------------------------------------------------------------------------
// Parsers
// ---------------------------------------------------------------------------

/// The display name for an EDID key such as `DEL:AW2725DM:JFH5F94`
/// (`DEL AW2725DM`).
pub fn friendly_name(edid_key: &str) -> (name: String)
    ensures
        name@ == friendly_name_of(edid_key@),
{
    let cs = to_chars(edid_key);
    let len = cs.len();
    assert(cs@.subrange(0, len as int) =~= cs@);
    let p1 = find_char(&cs, 0, len, ':');
    let (ma, mb) = trim_range(&cs, 0, p1);
    let (oa, ob) = if p1 < len {
        let p2 = find_char(&cs, p1 + 1, len, ':');
        proof {
            lemma_take_until_len(cs@, ':');
            assert(cs@.skip(p1 + 1) =~= cs@.subrange(p1 + 1, len as int));
        }
        trim_range(&cs, p1 + 1, p2)
    } else {
        (0, 0)
    };
    proof {
        lemma_take_until_len(cs@, ':');
        if p1 >= len {
            assert(cs@.subrange(0, 0) =~= trim(Seq::<char>::empty()));
        }
    }
    if ob == oa {
        string_from(&cs, ma, mb)
    } else if mb == ma {
        string_from(&cs, oa, ob)
    } else {
        let mut out = string_from(&cs, ma, mb);
        push_char(&mut out, ' ');
        append_range(&mut out, &cs, oa, ob);
        out
    }
}

/// The `(display number, EDID key, name)` of each monitor in a
/// `ddcutil detect --brief` output.
pub fn parse_detect(output: &str) -> (r: Vec<(u32, String, String)>)
    ensures
        triples_view(r@) == detected(output@),
{
    let cs = to_chars(output);
    let display = to_chars("Display ");
    let monitor = to_chars("Monitor:");
    let len = cs.len();
    let mut result: Vec<(u32, String, String)> = Vec::new();
    let mut current: Option<u32> = None;
    let mut pos: usize = 0;
    assert(cs@.subrange(0, len as int) =~= cs@);
    while pos < len
        invariant
            pos <= len == cs@.len(),
            cs@ == output@,
            display@ == "Display "@,
            monitor@ == "Monitor:"@,
            detected(output@) == triples_view(result@) + detect_entries(
                lines(cs@.subrange(pos as int, len as int)),
                current,
            ),
        decreases len - pos,
    {
        let ghost ls = lines(cs@.subrange(pos as int, len as int));
        let (end, next) = next_line(&cs, pos);
        let (ta, tb) = trim_range(&cs, pos, end);
        let ghost t = cs@.subrange(ta as int, tb as int);
        assert(ls[0] == cs@.subrange(pos as int, end as int));
        assert(ls.drop_first() =~= lines(cs@.subrange(next as int, len as int)));
        if starts_with_range(&cs, ta, tb, &display) {
            let (ra, rb) = trim_range(&cs, ta + display.len(), tb);
            assert(t.skip(display@.len() as int) =~= cs@.subrange(
                ta + display.len(),
                tb as int,
            ));
            current = match parse_unsigned_range(&cs, ra, rb, 10, u32::MAX) {
                Some(v) => Some(v),
                None => None,
            };
        } else if starts_with_range(&cs, ta, tb, &monitor) {
            assert(t.skip(monitor@.len() as int) =~= cs@.subrange(
                ta + monitor.len(),
                tb as int,
            ));
            let (ka, kb) = trim_range(&cs, ta + monitor.len(), tb);
            if let Some(id) = current {
                let key = string_from(&cs, ka, kb);
                let name = friendly_name(key.as_str());
                let ghost before = result@;
                result.push((id, key, name));
                assert(triples_view(result@) =~= triples_view(before) + seq![
                    (id, cs@.subrange(ka as int, kb as int), name@),
                ]);
            }
        }
        pos = next;
    }
    assert(cs@.subrange(len as int, len as int) =~= Seq::<char>::empty());
    assert(triples_view(result@) + Seq::<(u32, Seq<char>, Seq<char>)>::empty() =~= triples_view(
        result@,
    ));
    result
}

/// The range of the first line of `cs` whose text, without leading
/// whitespace, starts with `prefix`, and where the line after it begins.
fn find_line(cs: &[char], prefix: &[char]) -> (r: Option<(usize, usize, usize)>)
    ensures
        match r {
            Some((start, end, next)) => {
                &&& start <= end <= cs@.len()
                &&& next <= cs@.len()
                &&& find_line_starting(lines(cs@), prefix@) == Some(
                    (
                        cs@.subrange(start as int, end as int),
                        lines(cs@.subrange(next as int, cs@.len() as int)),
                    ),
                )
            },
            None => find_line_starting(lines(cs@), prefix@) is None,
        },
{
    let len = cs.len();
    let mut pos: usize = 0;
    assert(cs@.subrange(0, len as int) =~= cs@);
    while pos < len
        invariant
            pos <= len == cs@.len(),
            find_line_starting(lines(cs@), prefix@) == find_line_starting(
                lines(cs@.subrange(pos as int, len as int)),
                prefix@,
            ),
        decreases len - pos,
    {
        let ghost ls = lines(cs@.subrange(pos as int, len as int));
        let (end, next) = next_line(cs, pos);
        assert(ls[0] == cs@.subrange(pos as int, end as int));
        assert(ls.drop_first() =~= lines(cs@.subrange(next as int, len as int)));
        let a = trim_start_range(cs, pos, end);
        if starts_with_range(cs, a, end, prefix) {
            return Some((pos, end, next));
        }
        pos = next;
    }
    assert(cs@.subrange(len as int, len as int) =~= Seq::<char>::empty());
    None
}

/// The `(current, maximum)` brightness in a `ddcutil getvcp 10 --brief`
/// output.
pub fn parse_getvcp_brief(output: &str) -> (r: Option<(u8, u8)>)
    ensures
        r == getvcp_brightness(output@),
{
    let cs = to_chars(output);
    let vcp = to_chars("VCP 10");
    match find_line(&cs, &vcp) {
        None => None,
        Some((start, end, _)) => {
            let fields = split_whitespace_ranges(&cs, start, end);
            let ghost f = split_whitespace(cs@.subrange(start as int, end as int));
            if fields.len() < 5 {
                return None;
            }
            assert(f[3] == cs@.subrange(fields@[3].0 as int, fields@[3].1 as int));
            assert(f[4] == cs@.subrange(fields@[4].0 as int, fields@[4].1 as int));
            let current = parse_unsigned_range(&cs, fields[3].0, fields[3].1, 10, 255);
            let max = parse_unsigned_range(&cs, fields[4].0, fields[4].1, 10, 255);
            match (current, max) {
                (Some(c), Some(m)) => Some((c as u8, m as u8)),
                _ => None,
            }
        },
    }
}

/// The `(code, name)` input sources (VCP feature 0x60) in a
/// `ddcutil capabilities` output, in the order listed.
pub fn parse_input_sources(output: &str) -> (r: Vec<(u8, String)>)
    ensures
        pairs_view(r@) == input_sources(output@),
{
    let cs = to_chars(output);
    let feature = to_chars("Feature: 60 ");
    let values = to_chars("Values:");
    let len = cs.len();
    let mut result: Vec<(u8, String)> = Vec::new();
    let mut pos = match find_line(&cs, &feature) {
        None => {
            return result;
        },
        Some((_, _, next)) => next,
    };
    while pos < len
        invariant
            pos <= len == cs@.len(),
            cs@ == output@,
            values@ == "Values:"@,
            input_sources(output@) == pairs_view(result@) + input_source_entries(
                lines(cs@.subrange(pos as int, len as int)),
            ),
        decreases len - pos,
    {
        let ghost ls = lines(cs@.subrange(pos as int, len as int));
        let (end, next) = next_line(&cs, pos);
        assert(ls[0] == cs@.subrange(pos as int, end as int));
        assert(ls.drop_first() =~= lines(cs@.subrange(next as int, len as int)));
        let (ta, tb) = trim_range(&cs, pos, end);
        let ghost t = cs@.subrange(ta as int, tb as int);
        if !eq_ignore_ascii_case_range(&cs, ta, tb, &values) {
            let colon = find_char(&cs, ta, tb, ':');
            proof {
                lemma_take_until_len(t, ':');
            }
            if colon == tb {
                assert(pairs_view(result@) + Seq::<(u8, Seq<char>)>::empty() =~= pairs_view(
                    result@,
                ));
                return result;
            }
            assert(t.skip(colon - ta + 1) =~= cs@.subrange(colon + 1, tb as int));
            let (ca, cb) = trim_range(&cs, ta, colon);
            let code = match parse_unsigned_range(&cs, ca, cb, 16, 255) {
                None => {
                    assert(pairs_view(result@) + Seq::<(u8, Seq<char>)>::empty()
                        =~= pairs_view(result@));
                    return result;
                },
                Some(v) => v as u8,
            };
            let (na, nb) = trim_range(&cs, colon + 1, tb);
            let name = string_from(&cs, na, nb);
            let ghost before = result@;
            result.push((code, name));
            assert(pairs_view(result@) =~= pairs_view(before) + seq![(code, name@)]);
        }
        pos = next;
    }
    assert(cs@.subrange(len as int, len as int) =~= Seq::<char>::empty());
    assert(pairs_view(result@) + Seq::<(u8, Seq<char>)>::empty() =~= pairs_view(result@));
    result
}

/// The current input source in a `ddcutil getvcp 60 --brief` output.
pub fn parse_current_input(output: &str) -> (r: Option<u8>)
    ensures
        r == getvcp_input(output@),
{
    let cs = to_chars(output);
    let vcp = to_chars("VCP 60");
    let zero_x = to_chars("0x");
    match find_line(&cs, &vcp) {
        None => None,
        Some((start, end, _)) => {
            let fields = split_whitespace_ranges(&cs, start, end);
            let ghost f = split_whitespace(cs@.subrange(start as int, end as int));
            let n = fields.len();
            if n == 0 {
                return None;
            }
            let (fa, fb) = fields[n - 1];
            assert(f.last() == cs@.subrange(fa as int, fb as int));
            let ghost field = cs@.subrange(fa as int, fb as int);
            let digits_start = if fa < fb && cs[fa] == 'x' {
                assert(field.skip(1) =~= cs@.subrange(fa + 1, fb as int));
                fa + 1
            } else if starts_with_range(&cs, fa, fb, &zero_x) {
                proof {
                    reveal_strlit("0x");
                }
                assert(field.skip(2) =~= cs@.subrange(fa + 2, fb as int));
                fa + 2
            } else {
                return None;
            };
            match parse_unsigned_range(&cs, digits_start, fb, 16, 255) {
                Some(v) => Some(v as u8),
                None => None,
            }
        },
    }
}

// ---------------------------------------------------------------------------
// Replies of ddcutil runs, and the monitors they make up
// ---------------------------------------------------------------------------

/// `m` is the monitor made from a detected `(display number, EDID key,
/// name)` entry and the brightness probe's reply for it: the reported
/// `(current, maximum)` when the monitor answered, otherwise 0 out of 100 and
/// no brightness support.
pub open spec fn monitor_from_probe(
    m: Monitor,
    entry: (u32, Seq<char>, Seq<char>),
    reply: Option<(u8, u8)>,
) -> bool {
    &&& m.display_id == entry.0
    &&& m.edid_key@ == entry.1
    &&& m.name@ == entry.2
    &&& match reply {
        Some((current, max)) => m.value == current && m.max_value == max && m.supports_brightness,
        None => m.value == 0 && m.max_value == 100 && !m.supports_brightness,
    }
}

/// The brightness that a `getvcp 10 --brief` run reports: nothing when the
/// run failed, otherwise what its output holds.
pub fn brightness_from_getvcp(success: bool, stdout: &str) -> (r: Option<(u8, u8)>)
    ensures
        r == (if success {
            getvcp_brightness(stdout@)
        } else {
            None
        }),
{
    if !success {
        return None;
    }
    parse_getvcp_brief(stdout)
}

/// The current input source that a `getvcp 60 --brief` run reports: nothing
/// when the run failed, otherwise what its output holds.
pub fn current_input_from_getvcp(success: bool, stdout: &str) -> (r: Option<u8>)
    ensures
        r == (if success {
            getvcp_input(stdout@)
        } else {
            None
        }),
{
    if !success {
        return None;
    }
    parse_current_input(stdout)
}

/// The input sources that a `capabilities` run reports: none when ddcutil
/// could not be run (`None`), otherwise those its output lists, whatever its
/// exit status.
pub fn input_sources_from_capabilities(stdout: Option<&str>) -> (r: Vec<(u8, String)>)
    ensures
        pairs_view(r@) == (match stdout {
            Some(text) => input_sources(text@),
            None => Seq::empty(),
        }),
{
    match stdout {
        Some(text) => parse_input_sources(text),
        None => Vec::new(),
    }
}

/// The probe reply that a monitor was made from: its reading when it supports
/// brightness, otherwise none.
pub open spec fn brightness_reply(m: Monitor) -> Option<(u8, u8)> {
    if m.supports_brightness {
        Some((m.value, m.max_value))
    } else {
        None
    }
}

/// A run of `ddcutil detect --brief` being turned into monitors: the
/// detected `(display number, EDID key, name)` entries, and the monitors
/// made so far, one for each of the first entries, in order. The display to
/// probe next is that of the first entry without a monitor; each probe's
/// reply makes that entry's monitor, so every display is probed once, in
/// order.
pub struct MonitorDetection {
    entries: Vec<(u32, String, String)>,
    monitors: Vec<Monitor>,
}

impl View for MonitorDetection {
    /// The detected entries, and the monitors made so far.
    type V = (Seq<(u32, Seq<char>, Seq<char>)>, Seq<Monitor>);

    closed spec fn view(&self) -> Self::V {
        (triples_view(self.entries@), self.monitors@)
    }
}

/// Each of `monitors` is made from the entry at its position and from the
/// reply it shows.
pub open spec fn monitors_match_entries(
    entries: Seq<(u32, Seq<char>, Seq<char>)>,
    monitors: Seq<Monitor>,
) -> bool {
    &&& monitors.len() <= entries.len()
    &&& forall|k: int|
        #![trigger monitors[k]]
        0 <= k < monitors.len() ==> monitor_from_probe(
            monitors[k],
            entries[k],
            brightness_reply(monitors[k]),
        )
}

impl MonitorDetection {
    #[verifier::type_invariant]
    spec fn made_in_order(self) -> bool {
        monitors_match_entries(triples_view(self.entries@), self.monitors@)
    }

    /// The display number to probe next, if an entry is still without a
    /// monitor.
    pub fn next_probe(&self) -> (id: Option<u32>)
        ensures
            id == (if self@.1.len() < self@.0.len() {
                Some(self@.0[self@.1.len() as int].0)
            } else {
                None
            }),
    {
        proof {
            use_type_invariant(self);
        }
        let k = self.monitors.len();
        if k < self.entries.len() {
            Some(self.entries[k].0)
        } else {
            None
        }
    }

    /// Makes the monitor of the next entry from the probe's reply for its
    /// display: the reported `(current, maximum)` when it answered, otherwise
    /// 0 out of 100 and no brightness support. Once every entry has its
    /// monitor, nothing changes.
    pub fn record_probe(&mut self, reply: Option<(u8, u8)>)
        ensures
            final(self)@.0 == old(self)@.0,
            old(self)@.1.len() < old(self)@.0.len() ==> {
                &&& final(self)@.1.len() == old(self)@.1.len() + 1
                &&& final(self)@.1.drop_last() == old(self)@.1
                &&& monitor_from_probe(
                    final(self)@.1.last(),
                    old(self)@.0[old(self)@.1.len() as int],
                    reply,
                )
            },
            old(self)@.1.len() >= old(self)@.0.len() ==> final(self)@.1 == old(self)@.1,
    {
        proof {
            use_type_invariant(&*self);
        }
        let k = self.monitors.len();
        if k >= self.entries.len() {
            return;
        }
        let ghost entries = triples_view(self.entries@);
        let id = self.entries[k].0;
        let key = self.entries[k].1.clone();
        let name = self.entries[k].2.clone();
        assert(entries[k as int] == (self.entries@[k as int].0, self.entries@[k as int].1@,
            self.entries@[k as int].2@));
        let m = match reply {
            Some((current, max)) => Monitor {
                display_id: id,
                edid_key: key,
                name,
                value: current,
                max_value: max,
                supports_brightness: true,
            },
            None => Monitor {
                display_id: id,
                edid_key: key,
                name,
                value: 0,
                max_value: 100,
                supports_brightness: false,
            },
        };
        let mut monitors: Vec<Monitor> = Vec::new();
        std::mem::swap(&mut monitors, &mut self.monitors);
        let ghost before = monitors@;
        monitors.push(m);
        assert(monitors@.drop_last() =~= before);
        assert forall|j: int| #![trigger monitors@[j]] 0 <= j < monitors@.len() implies monitor_from_probe(
            monitors@[j],
            entries[j],
            brightness_reply(monitors@[j]),
        ) by {
            if j < before.len() {
                assert(monitors@[j] == before[j]);
            }
        }
        self.monitors = monitors;
    }

    /// The monitors made so far, each from the entry at its position.
    pub fn into_monitors(self) -> (monitors: Vec<Monitor>)
        ensures
            monitors@ == self@.1,
            monitors_match_entries(self@.0, monitors@),
    {
        proof {
            use_type_invariant(&self);
        }
        self.monitors
    }
}

/// Starts turning a `ddcutil detect --brief` run into monitors: the entries
/// its output lists, none probed yet. `detect_output` is `None` when ddcutil
/// could not be run, which gives no entries.
pub fn detect_monitors(detect_output: Option<&str>) -> (d: MonitorDetection)
    ensures
        d@.0 == (match detect_output {
            Some(text) => detected(text@),
            None => Seq::empty(),
        }),
        d@.1.len() == 0,
{
    let entries = match detect_output {
        Some(text) => parse_detect(text),
        None => Vec::new(),
    };
    assert(triples_view(entries@) =~= (match detect_output {
        Some(text) => detected(text@),
        None => Seq::empty(),
    }));
    MonitorDetection { entries, monitors: Vec::new() }
}

/// What is left to do once a display's input sources (VCP feature 0x60) are
/// known.
#[derive(Debug)]
pub enum InputSourcesStep {
    /// The display lists input sources: ask it for its current input
    /// (`getvcp 60 --brief`, which can take seconds) and pair the answer with
    /// these sources.
    QueryCurrent(u32, Vec<(u8, String)>),
    /// Nothing more to ask: the sources and the current input.
    Done(Vec<(u8, String)>, Option<u8>),
}

/// The input sources of display `display_id` and its current input: given
/// the sources that its capabilities list, the current input is asked for
/// only when there are sources to choose from; without sources the answer is
/// no sources and no current input.
pub fn get_input_sources_and_current(display_id: u32, sources: Vec<(u8, String)>) -> (step:
    InputSourcesStep)
    ensures
        sources@.len() == 0 ==> step == InputSourcesStep::Done(sources, None),
        sources@.len() > 0 ==> step == InputSourcesStep::QueryCurrent(display_id, sources),
{
    if sources.len() == 0 {
        InputSourcesStep::Done(sources, None)
    } else {
        InputSourcesStep::QueryCurrent(display_id, sources)
    }
}

} // verus!
