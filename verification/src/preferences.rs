//! The decisions behind the preferences window: the theme chooser and the
//! input source chooser of each monitor.
use vstd::prelude::*;

use crate::text::str_eq;

verus! {

/// The row of the theme chooser (System, Light, Dark) for a theme name;
/// an unknown name shows as System.
pub open spec fn theme_index_of(theme: Seq<char>) -> u32 {
    if theme == "light"@ {
        1
    } else if theme == "dark"@ {
        2
    } else {
        0
    }
}

/// The theme name for a row of the theme chooser; any row past Dark reads
/// as System.
pub open spec fn theme_at(selected: u32) -> Seq<char> {
    if selected == 1 {
        "light"@
    } else if selected == 2 {
        "dark"@
    } else {
        "system"@
    }
}

/// The first position in `sources` of the input with code `code`.
pub open spec fn source_position(sources: Seq<(u8, String)>, code: u8) -> Option<int>
    decreases sources.len(),
{
    if sources.len() == 0 {
        None
    } else if sources[0].0 == code {
        Some(0)
    } else {
        match source_position(sources.drop_first(), code) {
            Some(k) => Some(k + 1),
            None => None,
        }
    }
}

/// The row of the theme chooser that shows `theme`.
pub fn theme_index(theme: &str) -> (index: u32)
    ensures
        index == theme_index_of(theme@),
{
    if str_eq(theme, "light") {
        1
    } else if str_eq(theme, "dark") {
        2
    } else {
        0
    }
}

/// The theme name chosen by selecting row `selected` of the theme chooser.
pub fn theme_for_index(selected: u32) -> (theme: &'static str)
    ensures
        theme@ == theme_at(selected),
{
    if selected == 1 {
        "light"
    } else if selected == 2 {
        "dark"
    } else {
        "system"
    }
}

/// The row of the input source chooser to select: that of the current input
/// when it is listed (as a `u32`, as the chooser takes it), otherwise the
/// first.
pub fn selected_input_index(sources: &Vec<(u8, String)>, current: Option<u8>) -> (index: u32)
    ensures
        index == (match current {
            Some(code) => match source_position(sources@, code) {
                Some(k) => k as u32,
                None => 0,
            },
            None => 0,
        }),
        forall|code: u8|
            current == Some(code) && sources@.len() <= u32::MAX && (exists|k: int|
                0 <= k < sources@.len() && (#[trigger] sources@[k]).0 == code) ==> {
                &&& (index as int) < sources@.len()
                &&& sources@[index as int].0 == code
                &&& forall|i: int| 0 <= i < index ==> sources@[i].0 != code
            },
        current is None ==> index == 0,
        forall|code: u8|
            current == Some(code) && (forall|k: int|
                0 <= k < sources@.len() ==> sources@[k].0 != code) ==> index == 0,
{
    let index = first_row_of(sources, current);
    proof {
        if let Some(code) = current {
            lemma_source_position_is_first_match(sources@, code);
            if sources@.len() <= u32::MAX && exists|k: int|
                0 <= k < sources@.len() && (#[trigger] sources@[k]).0 == code {
                let k = choose|k: int| 0 <= k < sources@.len() && (#[trigger] sources@[k]).0 == code;
                assert(source_position(sources@, code) is Some) by {
                    if source_position(sources@, code) is None {
                        assert(sources@[k].0 != code);
                    }
                }
            }
        }
    }
    index
}

fn first_row_of(sources: &Vec<(u8, String)>, current: Option<u8>) -> (index: u32)
    ensures
        index == (match current {
            Some(code) => match source_position(sources@, code) {
                Some(k) => k as u32,
                None => 0,
            },
            None => 0,
        }),
{
    let code = match current {
        None => {
            return 0;
        },
        Some(code) => code,
    };
    let ghost s = sources@;
    let n = sources.len();
    let mut i: usize = 0;
    assert(s.skip(0) =~= s);
    while i < n
        invariant
            n == s.len(),
            s == sources@,
            current == Some(code),
            i <= n,
            source_position(s, code) == (match source_position(s.skip(i as int), code) {
                Some(k) => Some(k + i),
                None => None,
            }),
        decreases n - i,
    {
        assert(s.skip(i as int).drop_first() =~= s.skip(i + 1));
        assert(s.skip(i as int)[0] == s[i as int]);
        if sources[i].0 == code {
            return i as u32;
        }
        i += 1;
    }
    assert(s.skip(n as int) =~= Seq::<(u8, String)>::empty());
    0
}

/// The code of the input source in row `selected` of the chooser, if there is
/// such a row.
pub fn input_value_at(sources: &Vec<(u8, String)>, selected: u32) -> (code: Option<u8>)
    ensures
        code == (if (selected as int) < sources@.len() {
            Some(sources@[selected as int].0)
        } else {
            None
        }),
{
    let i = selected as usize;
    if i < sources.len() {
        Some(sources[i].0)
    } else {
        None
    }
}

/// The input chooser opens on the first row that holds the current input,
/// whenever some row does: the position found holds that code and no earlier
/// row does, and there is no position only when no row holds the code.
pub proof fn lemma_source_position_is_first_match(sources: Seq<(u8, String)>, code: u8)
    ensures
        source_position(sources, code) matches Some(j) ==> {
            &&& 0 <= j < sources.len()
            &&& sources[j].0 == code
            &&& forall|i: int| 0 <= i < j ==> sources[i].0 != code
        },
        source_position(sources, code) is None <==> forall|k: int|
            0 <= k < sources.len() ==> sources[k].0 != code,
    decreases sources.len(),
{
    if sources.len() > 0 && sources[0].0 != code {
        let rest = sources.drop_first();
        lemma_source_position_is_first_match(rest, code);
        if source_position(sources, code) is None {
            assert forall|k: int| 0 <= k < sources.len() implies sources[k].0 != code by {
                if k > 0 {
                    assert(sources[k] == rest[k - 1]);
                }
            }
        } else {
            let j = source_position(sources, code)->0;
            assert forall|i: int| 0 <= i < j implies sources[i].0 != code by {
                if i > 0 {
                    assert(sources[i] == rest[i - 1]);
                }
            }
        }
        if forall|k: int| 0 <= k < sources.len() ==> sources[k].0 != code {
            assert forall|k: int| 0 <= k < rest.len() implies rest[k].0 != code by {
                assert(rest[k] == sources[k + 1]);
            }
        }
    }
}

/// The input chooser opens on the current input: whenever the current
/// input's code is listed, the row selected holds that code.
pub proof fn lemma_chooser_shows_current(sources: Seq<(u8, String)>, code: u8)
    requires
        exists|k: int| 0 <= k < sources.len() && (#[trigger] sources[k]).0 == code,
        sources.len() <= u32::MAX,
    ensures
        ({
            let k = source_position(sources, code)->0;
            &&& source_position(sources, code) is Some
            &&& 0 <= k < sources.len()
            &&& (k as u32) as int == k
            &&& sources[(k as u32) as int].0 == code
        }),
{
    lemma_source_position_is_first_match(sources, code);
    let w = choose|k: int| 0 <= k < sources.len() && (#[trigger] sources[k]).0 == code;
    if source_position(sources, code) is None {
        assert(sources[w].0 != code);
    }
}

/// Selecting a row of the theme chooser and showing the chosen theme selects
/// the same row again.
pub proof fn lemma_theme_row_round_trip(selected: u32)
    requires
        selected < 3,
    ensures
        theme_index_of(theme_at(selected)) == selected,
{
    reveal_strlit("light");
    reveal_strlit("dark");
    reveal_strlit("system");
    assert("light"@ != "dark"@) by {
        assert("light"@[0] != "dark"@[0]);
    }
    assert("system"@ != "dark"@) by {
        assert("system"@[0] != "dark"@[0]);
    }
    assert("system"@ != "light"@) by {
        assert("system"@[0] != "light"@[0]);
    }
}

/// Each of the three themes that the chooser offers is shown on the row that
/// chooses it.
pub proof fn lemma_theme_name_round_trip(theme: Seq<char>)
    requires
        theme == "system"@ || theme == "light"@ || theme == "dark"@,
    ensures
        theme_at(theme_index_of(theme)) == theme,
{
    reveal_strlit("light");
    reveal_strlit("dark");
    reveal_strlit("system");
    assert("system"@ != "dark"@) by {
        assert("system"@[0] != "dark"@[0]);
    }
    assert("system"@ != "light"@) by {
        assert("system"@[0] != "light"@[0]);
    }
}

} // verus!
