//! The settings of the client.
use crate::text::copy_text;
use crate::text::same_text;
use vstd::prelude::*;

verus! {

/// What the user asked of the settings.
pub struct ConfigArgs {
    pub key: Option<String>,
    pub value: Option<String>,
    pub list: bool,
}

/// What is to be done.
#[derive(Debug, Clone, Copy, PartialEq, Eq, Structural)]
pub enum ConfigAction {
    List,
    Change,
    Show,
    KeyRequired,
}

/// What is to be done. Listing comes before everything else.
pub fn config_action(args: &ConfigArgs) -> (out: ConfigAction)
    ensures
        out == if args.list {
            ConfigAction::List
        } else if args.key is None {
            ConfigAction::KeyRequired
        } else if args.value is Some {
            ConfigAction::Change
        } else {
            ConfigAction::Show
        },
{
    if args.list {
        ConfigAction::List
    } else if args.key.is_none() {
        ConfigAction::KeyRequired
    } else if args.value.is_some() {
        ConfigAction::Change
    } else {
        ConfigAction::Show
    }
}

/// The settings: names with values.
pub struct ClientConfig {
    settings: Vec<(String, String)>,
}

/// The settings as a map.
pub open spec fn settings_map(s: Seq<(String, String)>) -> Map<Seq<char>, Seq<char>>
    decreases s.len(),
{
    if s.len() == 0 {
        Map::empty()
    } else {
        settings_map(s.drop_last()).insert(s.last().0@, s.last().1@)
    }
}

/// Whether no name stands twice.
pub open spec fn names_unique(s: Seq<(String, String)>) -> bool {
    forall|i: int, j: int| 0 <= i < j < s.len() ==> (#[trigger] s[i]).0@ != (#[trigger] s[j]).0@
}

proof fn settings_names(s: Seq<(String, String)>, key: Seq<char>)
    ensures
        settings_map(s).dom().contains(key) <==> exists|i: int|
            0 <= i < s.len() && (#[trigger] s[i]).0@ == key,
    decreases s.len(),
{
    if s.len() > 0 {
        let front = s.drop_last();
        settings_names(front, key);
        if s.last().0@ == key {
            assert(s[s.len() - 1].0@ == key);
        } else {
            if settings_map(front).dom().contains(key) {
                let i = choose|i: int| 0 <= i < front.len() && (#[trigger] front[i]).0@ == key;
                assert(s[i].0@ == key);
            }
            if exists|i: int| 0 <= i < s.len() && (#[trigger] s[i]).0@ == key {
                let i = choose|i: int| 0 <= i < s.len() && (#[trigger] s[i]).0@ == key;
                assert(front[i].0@ == key);
            }
        }
    }
}

proof fn settings_value(s: Seq<(String, String)>, i: int)
    requires
        names_unique(s),
        0 <= i < s.len(),
    ensures
        settings_map(s).dom().contains(s[i].0@),
        settings_map(s)[s[i].0@] == s[i].1@,
    decreases s.len(),
{
    let front = s.drop_last();
    if i < front.len() {
        assert(names_unique(front)) by {
            assert forall|a: int, b: int| 0 <= a < b < front.len() implies (#[trigger] front[a]).0@
                != (#[trigger] front[b]).0@ by {
                assert(s[a].0@ != s[b].0@);
            }
        }
        settings_value(front, i);
        assert(front[i] == s[i]);
        assert(s[i].0@ != s[s.len() - 1].0@);
    }
}

impl View for ClientConfig {
    type V = Map<Seq<char>, Seq<char>>;

    closed spec fn view(&self) -> Map<Seq<char>, Seq<char>> {
        settings_map(self.settings@)
    }
}

impl ClientConfig {
    /// Every setting stands once.
    pub closed spec fn wf(&self) -> bool {
        names_unique(self.settings@)
    }

    /// No settings.
    pub fn new() -> (out: Self)
        ensures
            out.wf(),
            out@ == Map::<Seq<char>, Seq<char>>::empty(),
    {
        ClientConfig { settings: Vec::new() }
    }

    fn find(&self, key: &str) -> (out: Option<usize>)
        ensures
            out is None <==> !self@.dom().contains(key@),
            out matches Some(i) ==> i < self.settings@.len() && self.settings@[i as int].0@ == key@,
    {
        let mut i: usize = 0;
        while i < self.settings.len()
            invariant
                i <= self.settings@.len(),
                forall|j: int| 0 <= j < i ==> (#[trigger] self.settings@[j]).0@ != key@,
            decreases self.settings@.len() - i,
        {
            if same_text(self.settings[i].0.as_str(), key) {
                proof {
                    settings_names(self.settings@, key@);
                }
                return Some(i);
            }
            i += 1;
        }
        proof {
            settings_names(self.settings@, key@);
        }
        None
    }

    /// The value of a setting.
    pub fn get(&self, key: &str) -> (out: Option<&str>)
        requires
            self.wf(),
        ensures
            out is Some <==> self@.dom().contains(key@),
            out matches Some(v) ==> v@ == self@[key@],
    {
        match self.find(key) {
            Some(i) => {
                proof {
                    settings_value(self.settings@, i as int);
                }
                Some(self.settings[i].1.as_str())
            },
            None => None,
        }
    }

    /// Gives a setting a value.
    pub fn set(&mut self, key: &str, value: &str)
        requires
            old(self).wf(),
        ensures
            final(self).wf(),
            final(self)@ == old(self)@.insert(key@, value@),
    {
        let ghost before = self.settings@;
        let entry = (copy_text(key), copy_text(value));
        match self.find(key) {
            Some(i) => {
                self.settings.set(i, entry);
                proof {
                    let after = self.settings@;
                    assert(names_unique(after)) by {
                        assert forall|a: int, b: int| 0 <= a < b < after.len() implies (
                        #[trigger] after[a]).0@ != (#[trigger] after[b]).0@ by {
                            assert(before[a].0@ != before[b].0@);
                        }
                    }
                    assert forall|k: Seq<char>|
                        settings_map(after).dom().contains(k) <==> settings_map(before).insert(
                            key@,
                            value@,
                        ).dom().contains(k) by {
                        settings_names(after, k);
                        settings_names(before, k);
                        if settings_map(before).dom().contains(k) {
                            let a = choose|a: int|
                                0 <= a < before.len() && (#[trigger] before[a]).0@ == k;
                            assert(after[a].0@ == k);
                        }
                        if settings_map(after).dom().contains(k) {
                            let a = choose|a: int|
                                0 <= a < after.len() && (#[trigger] after[a]).0@ == k;
                            assert(before[a].0@ == k);
                        }
                        assert(after[i as int].0@ == key@);
                    }
                    assert forall|k: Seq<char>| #[trigger]
                        settings_map(after).dom().contains(k) implies settings_map(after)[k]
                        == settings_map(before).insert(key@, value@)[k] by {
                        settings_names(after, k);
                        let a = choose|a: int| 0 <= a < after.len() && (#[trigger] after[a]).0@ == k;
                        settings_value(after, a);
                        if a != i {
                            settings_value(before, a);
                            if a < i {
                                assert(before[a].0@ != before[i as int].0@);
                            } else {
                                assert(before[i as int].0@ != before[a].0@);
                            }
                        }
                    }
                    assert(settings_map(after) =~= settings_map(before).insert(key@, value@));
                }
            },
            None => {
                self.settings.push(entry);
                proof {
                    let after = self.settings@;
                    assert(after.drop_last() =~= before);
                    assert(names_unique(after)) by {
                        assert forall|a: int, b: int| 0 <= a < b < after.len() implies (
                        #[trigger] after[a]).0@ != (#[trigger] after[b]).0@ by {
                            assert(after[a] == before[a]);
                            if b < before.len() {
                                assert(after[b] == before[b]);
                            } else {
                                settings_names(before, key@);
                            }
                        }
                    }
                }
            },
        }
    }

    /// The settings, each once, in the order in which they were first made.
    pub fn list(&self) -> (out: &Vec<(String, String)>)
        requires
            self.wf(),
        ensures
            names_unique(out@),
            settings_map(out@) == self@,
    {
        &self.settings
    }
}

} // verus!
