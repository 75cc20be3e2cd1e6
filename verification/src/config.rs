//! The persisted settings: theme, monitor nicknames, start-up behaviour and
//! window size, with the defaults that fill in what a settings file leaves
//! out.
use vstd::prelude::*;

use crate::text::{to_chars, trim, trim_range};

verus! {

/// The user's settings.
///
/// `nicknames` maps an EDID key to the name shown for that monitor; each key
/// occurs at most once (`keys_unique`), and the map it stands for is
/// `nickname_map(nicknames@)`.
#[derive(Debug, Clone)]
pub struct Config {
    pub theme: String,
    pub nicknames: Vec<(String, String)>,
    pub start_minimized: bool,
    pub window_width: i32,
    pub window_height: i32,
}

/// The map that a list of `(EDID key, nickname)` pairs stands for; a later
/// pair for a key wins over an earlier one.
pub open spec fn nickname_map(entries: Seq<(String, String)>) -> Map<Seq<char>, Seq<char>>
    decreases entries.len(),
{
    if entries.len() == 0 {
        Map::empty()
    } else {
        nickname_map(entries.drop_last()).insert(entries.last().0@, entries.last().1@)
    }
}

/// No EDID key occurs twice in `entries`.
pub open spec fn keys_unique(entries: Seq<(String, String)>) -> bool
    decreases entries.len(),
{
    entries.len() == 0 || (keys_unique(entries.drop_last()) && !nickname_map(
        entries.drop_last(),
    ).dom().contains(entries.last().0@))
}

/// `entries` without the pairs whose key is `key`, in order.
pub open spec fn without_key(entries: Seq<(String, String)>, key: Seq<char>) -> Seq<
    (String, String),
>
    decreases entries.len(),
{
    if entries.len() == 0 {
        entries
    } else if entries.last().0@ == key {
        without_key(entries.drop_last(), key)
    } else {
        without_key(entries.drop_last(), key).push(entries.last())
    }
}

/// The nicknames after the user typed `text` as the nickname of `key`:
/// blank text forgets the key's nickname, other text becomes it.
pub open spec fn nicknames_after_set(
    nicknames: Map<Seq<char>, Seq<char>>,
    key: Seq<char>,
    text: Seq<char>,
) -> Map<Seq<char>, Seq<char>> {
    if trim(text).len() == 0 {
        nicknames.remove(key)
    } else {
        nicknames.insert(key, text)
    }
}

impl Config {
    /// The nickname of each EDID key.
    pub open spec fn nicknames_view(&self) -> Map<Seq<char>, Seq<char>> {
        nickname_map(self.nicknames@)
    }

    /// The well-formedness of a configuration: no EDID key has two
    /// nicknames.
    pub open spec fn wf(&self) -> bool {
        keys_unique(self.nicknames@)
    }
}

/// The theme used when the settings name none: follow the system.
pub fn default_theme() -> (theme: String)
    ensures
        theme@ == "system"@,
{
    "system".to_owned()
}

/// The window width used when the settings give none.
pub fn default_window_width() -> (width: i32)
    ensures
        width == 720,
{
    720
}

/// The window height used when the settings give none.
pub fn default_window_height() -> (height: i32)
    ensures
        height == 420,
{
    420
}

impl Default for Config {
    fn default() -> (c: Self)
        ensures
            c.theme@ == "system"@,
            c.nicknames@.len() == 0,
            !c.start_minimized,
            c.window_width == 720,
            c.window_height == 420,
    {
        Config {
            theme: default_theme(),
            nicknames: Vec::new(),
            start_minimized: false,
            window_width: default_window_width(),
            window_height: default_window_height(),
        }
    }
}

// ---------------------------------------------------------------------------
// Lemmas on the nickname list
// ---------------------------------------------------------------------------

/// Removing every pair of a key removes the key from the map.
pub proof fn lemma_without_key_map(entries: Seq<(String, String)>, key: Seq<char>)
    ensures
        nickname_map(without_key(entries, key)) == nickname_map(entries).remove(key),
        keys_unique(entries) ==> keys_unique(without_key(entries, key)),
    decreases entries.len(),
{
    if entries.len() > 0 {
        let rest = entries.drop_last();
        lemma_without_key_map(rest, key);
        if entries.last().0@ == key {
            assert(nickname_map(entries).remove(key) =~= nickname_map(rest).remove(key));
        } else {
            let w = without_key(rest, key).push(entries.last());
            assert(w.drop_last() =~= without_key(rest, key));
            assert(nickname_map(w) =~= nickname_map(entries).remove(key));
        }
    }
}

/// The pairs after position `j` do not mention `key`, so the map's entry for
/// `key` is decided by the pairs before `j`.
pub proof fn lemma_map_prefix(entries: Seq<(String, String)>, j: int, key: Seq<char>)
    requires
        0 <= j <= entries.len(),
        forall|k: int| j <= k < entries.len() ==> entries[k].0@ != key,
    ensures
        nickname_map(entries).dom().contains(key) == nickname_map(entries.take(j)).dom().contains(
            key,
        ),
        nickname_map(entries).dom().contains(key) ==> nickname_map(entries)[key] == nickname_map(
            entries.take(j),
        )[key],
    decreases entries.len(),
{
    if j < entries.len() {
        let rest = entries.drop_last();
        assert(rest.take(j) =~= entries.take(j));
        lemma_map_prefix(rest, j, key);
    } else {
        assert(entries.take(j) =~= entries);
    }
}

/// Reading a nickname back after saving it: the monitor whose nickname was
/// set reads back the text typed (untrimmed), or none when the text was
/// blank; every other monitor keeps the nickname it had.
pub proof fn lemma_nickname_read_after_set(
    nicknames: Map<Seq<char>, Seq<char>>,
    key: Seq<char>,
    text: Seq<char>,
    other: Seq<char>,
)
    ensures
        trim(text).len() > 0 ==> nicknames_after_set(nicknames, key, text).dom().contains(key)
            && nicknames_after_set(nicknames, key, text)[key] == text,
        trim(text).len() == 0 ==> !nicknames_after_set(nicknames, key, text).dom().contains(key),
        other != key ==> nicknames_after_set(nicknames, key, text).dom().contains(other)
            == nicknames.dom().contains(other),
        other != key && nicknames.dom().contains(other) ==> nicknames_after_set(
            nicknames,
            key,
            text,
        )[other] == nicknames[other],
{
}

// ---------------------------------------------------------------------------
// Nicknames
// ---------------------------------------------------------------------------

impl Config {
    /// The nickname given to the monitor with EDID key `edid_key`, if any.
    pub fn nickname(&self, edid_key: &str) -> (r: Option<String>)
        ensures
            match r {
                Some(name) => self.nicknames_view().dom().contains(edid_key@) && name@
                    == self.nicknames_view()[edid_key@],
                None => !self.nicknames_view().dom().contains(edid_key@),
            },
    {
        let key = edid_key.to_owned();
        let n = self.nicknames.len();
        let mut j = n;
        assert(self.nicknames@.take(n as int) =~= self.nicknames@);
        while j > 0
            invariant
                j <= n == self.nicknames@.len(),
                key@ == edid_key@,
                forall|k: int| j <= k < n ==> self.nicknames@[k].0@ != key@,
            decreases j,
        {
            if self.nicknames[j - 1].0 == key {
                proof {
                    lemma_map_prefix(self.nicknames@, j as int, key@);
                    assert(self.nicknames@.take(j as int).drop_last() =~= self.nicknames@.take(
                        j - 1,
                    ));
                }
                return Some(self.nicknames[j - 1].1.clone());
            }
            j -= 1;
        }
        proof {
            lemma_map_prefix(self.nicknames@, 0, key@);
            assert(self.nicknames@.take(0) =~= Seq::<(String, String)>::empty());
        }
        None
    }

    /// Forgets the nickname of the monitor with EDID key `edid_key`.
    pub fn remove_nickname(&mut self, edid_key: &str)
        ensures
            final(self).nicknames_view() == old(self).nicknames_view().remove(edid_key@),
            old(self).wf() ==> final(self).wf(),
            final(self).theme == old(self).theme,
            final(self).start_minimized == old(self).start_minimized,
            final(self).window_width == old(self).window_width,
            final(self).window_height == old(self).window_height,
    {
        let key = edid_key.to_owned();
        let ghost entries = self.nicknames@;
        let n = self.nicknames.len();
        let mut kept: Vec<(String, String)> = Vec::new();
        let mut i: usize = 0;
        assert(entries.take(0) =~= Seq::<(String, String)>::empty());
        while i < n
            invariant
                i <= n == entries.len(),
                entries == self.nicknames@,
                key@ == edid_key@,
                kept@ == without_key(entries.take(i as int), key@),
            decreases n - i,
        {
            assert(entries.take(i + 1).drop_last() =~= entries.take(i as int));
            if self.nicknames[i].0 != key {
                let pair = (self.nicknames[i].0.clone(), self.nicknames[i].1.clone());
                kept.push(pair);
            }
            i += 1;
        }
        assert(entries.take(n as int) =~= entries);
        proof {
            lemma_without_key_map(entries, key@);
        }
        self.nicknames = kept;
    }

    /// Names the monitor with EDID key `edid_key` `name`, replacing the
    /// nickname it had.
    pub fn insert_nickname(&mut self, edid_key: &str, name: &str)
        ensures
            final(self).nicknames_view() == old(self).nicknames_view().insert(edid_key@, name@),
            old(self).wf() ==> final(self).wf(),
            final(self).theme == old(self).theme,
            final(self).start_minimized == old(self).start_minimized,
            final(self).window_width == old(self).window_width,
            final(self).window_height == old(self).window_height,
    {
        self.remove_nickname(edid_key);
        let ghost before = self.nicknames@;
        self.nicknames.push((edid_key.to_owned(), name.to_owned()));
        assert(self.nicknames@.drop_last() =~= before);
        assert(self.nicknames_view() =~= old(self).nicknames_view().insert(edid_key@, name@));
    }

    /// Saves what the user typed as the nickname of the monitor with EDID key
    /// `edid_key`: blank text (only whitespace) forgets its nickname, other
    /// text, untrimmed, becomes it.
    pub fn set_nickname(&mut self, edid_key: &str, text: &str)
        ensures
            final(self).nicknames_view() == nicknames_after_set(
                old(self).nicknames_view(),
                edid_key@,
                text@,
            ),
            old(self).wf() ==> final(self).wf(),
            final(self).theme == old(self).theme,
            final(self).start_minimized == old(self).start_minimized,
            final(self).window_width == old(self).window_width,
            final(self).window_height == old(self).window_height,
    {
        let cs = to_chars(text);
        let len = cs.len();
        let (a, b) = trim_range(&cs, 0, len);
        assert(cs@.subrange(0, len as int) =~= cs@);
        if a == b {
            self.remove_nickname(edid_key);
        } else {
            self.insert_nickname(edid_key, text);
        }
    }
}

} // verus!
