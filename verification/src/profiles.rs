//! Named configurations, one of which is the current one.

use vstd::prelude::*;
use crate::models::StitchSettings;

verus! {

/// A configuration under its name.
#[derive(Debug)]
pub struct Profile {
    pub name: String,
    pub settings: StitchSettings,
}

/// Why a change to the profiles was refused.
#[derive(Clone, Copy, Debug, PartialEq, Eq, Structural)]
pub enum ProfileError {
    /// The profile `Default` cannot be deleted.
    CannotDeleteDefault,
    /// There is no profile of that name.
    NotFound,
}

impl ProfileError {
    /// The refusal in words.
    pub fn message(&self) -> (text: String)
        ensures
            text@ == (match *self {
                ProfileError::CannotDeleteDefault => "Cannot delete Default profile"@,
                ProfileError::NotFound => "Profile not found"@,
            }),
    {
        match self {
            ProfileError::CannotDeleteDefault => "Cannot delete Default profile".to_owned(),
            ProfileError::NotFound => "Profile not found".to_owned(),
        }
    }
}

/// The profiles as a mathematical value: the name of the current one, and
/// the configuration under each name.
pub struct Profiles {
    pub current: Seq<char>,
    pub by_name: Map<Seq<char>, StitchSettings>,
}

/// The configurations of some entries by their names; of two entries of
/// one name the later one counts.
pub open spec fn by_name(entries: Seq<Profile>) -> Map<Seq<char>, StitchSettings>
    decreases entries.len(),
{
    if entries.len() == 0 {
        Map::empty()
    } else {
        by_name(entries.drop_last()).insert(entries.last().name@, entries.last().settings)
    }
}

/// No two entries have one name.
pub open spec fn distinct(entries: Seq<Profile>) -> bool {
    forall|i: int, j: int|
        0 <= i < j < entries.len() ==> (#[trigger] entries[i]).name@ != (#[trigger] entries[j]).name@
}

/// A name is known exactly if an entry has it, and where no two entries
/// have one name, each entry is found under its name.
proof fn lemma_by_name(entries: Seq<Profile>)
    ensures
        forall|name: Seq<char>| #[trigger]
            by_name(entries).contains_key(name) <==> exists|i: int|
                0 <= i < entries.len() && (#[trigger] entries[i]).name@ == name,
        distinct(entries) ==> forall|i: int|
            0 <= i < entries.len() ==> by_name(entries)[(#[trigger] entries[i]).name@]
                == entries[i].settings,
    decreases entries.len(),
{
    if entries.len() > 0 {
        let before = entries.drop_last();
        let last = entries.last();
        lemma_by_name(before);
        assert forall|name: Seq<char>| #[trigger]
            by_name(entries).contains_key(name) <==> exists|i: int|
                0 <= i < entries.len() && (#[trigger] entries[i]).name@ == name by {
            assert(by_name(entries) == by_name(before).insert(last.name@, last.settings));
            if by_name(entries).contains_key(name) {
                if name == last.name@ {
                    assert(entries[entries.len() - 1].name@ == name);
                } else {
                    assert(by_name(before).contains_key(name));
                    let i = choose|i: int| 0 <= i < before.len() && (#[trigger] before[i]).name@
                        == name;
                    assert(before[i] == entries[i]);
                    assert(entries[i].name@ == name);
                }
            }
            if exists|i: int| 0 <= i < entries.len() && (#[trigger] entries[i]).name@ == name {
                let i = choose|i: int| 0 <= i < entries.len() && (#[trigger] entries[i]).name@
                    == name;
                if i < before.len() {
                    assert(before[i] == entries[i]);
                    assert(before[i].name@ == name);
                    assert(by_name(before).contains_key(name));
                } else {
                    assert(entries[i] == last);
                }
            }
        }
        if distinct(entries) {
            assert(distinct(before)) by {
                assert forall|i: int, j: int| 0 <= i < j < before.len() implies (
                #[trigger] before[i]).name@ != (#[trigger] before[j]).name@ by {
                    assert(before[i] == entries[i] && before[j] == entries[j]);
                }
            }
            assert forall|i: int| 0 <= i < entries.len() implies by_name(entries)[(
            #[trigger] entries[i]).name@] == entries[i].settings by {
                if i < before.len() {
                    assert(before[i] == entries[i]);
                    assert(entries[i].name@ != entries[entries.len() - 1].name@);
                }
            }
        }
    }
}

/// Named configurations, one of which is the current one. No two of them
/// have one name.
#[derive(Debug)]
pub struct AppConfig {
    current_profile: String,
    profiles: Vec<Profile>,
}

impl View for AppConfig {
    type V = Profiles;

    closed spec fn view(&self) -> Profiles {
        Profiles { current: self.current_profile@, by_name: by_name(self.profiles@) }
    }
}

impl AppConfig {
    #[verifier::type_invariant]
    spec fn well_formed(&self) -> bool {
        distinct(self.profiles@)
    }

    /// The names of the profiles in the order in which `entry` gives them.
    /// Only a change to the profiles changes it.
    pub closed spec fn names(&self) -> Seq<Seq<char>> {
        self.profiles@.map_values(|p: Profile| p.name@)
    }

    /// What a new installation starts with: the one profile `Default`,
    /// which holds the default configuration and is the current one.
    pub fn initial() -> (config: AppConfig)
        ensures
            config@.current == "Default"@,
            config@.by_name.dom() == set!["Default"@],
            config@.by_name["Default"@].is_default(),
    {
        let mut profiles: Vec<Profile> = Vec::new();
        profiles.push(Profile { name: "Default".to_owned(), settings: StitchSettings::default() });
        let config = AppConfig { current_profile: "Default".to_owned(), profiles };
        proof {
            assert(config.profiles@.drop_last() =~= Seq::<Profile>::empty());
            assert(by_name(config.profiles@.drop_last()) =~= Map::empty());
            assert(config@.by_name.dom() =~= set!["Default"@]);
        }
        config
    }

    /// No profiles at all, and a current name that the caller chooses.
    pub fn empty(current: String) -> (config: AppConfig)
        ensures
            config@.current == current@,
            config@.by_name == Map::<Seq<char>, StitchSettings>::empty(),
    {
        AppConfig { current_profile: current, profiles: Vec::new() }
    }

    /// The place of the profile of this name among the entries.
    #[verifier::loop_isolation(false)]
    fn find(&self, name: &String) -> (at: Option<usize>)
        ensures
            at is Some <==> self@.by_name.contains_key(name@),
            at is Some ==> at->0 < self.profiles@.len() && self.profiles@[at->0 as int].name@
                == name@,
    {
        proof {
            lemma_by_name(self.profiles@);
        }
        let mut i: usize = 0;
        while i < self.profiles.len()
            invariant
                i <= self.profiles@.len(),
                forall|k: int| 0 <= k < i ==> (#[trigger] self.profiles@[k]).name@ != name@,
            decreases self.profiles@.len() - i,
        {
            if self.profiles[i].name == *name {
                assert(self.profiles@[i as int].name@ == name@);
                return Some(i);
            }
            i = i + 1;
        }
        None
    }

    /// The name of the current profile.
    pub fn current_profile(&self) -> (name: &String)
        ensures
            name@ == self@.current,
    {
        &self.current_profile
    }

    /// The number of profiles. The names in the order of `entry` are as
    /// many, no name stands twice among them, and they are exactly the names
    /// that have a configuration.
    pub fn len(&self) -> (n: usize)
        ensures
            n == self.names().len(),
            self.names().no_duplicates(),
            forall|name: Seq<char>| #[trigger]
                self.names().contains(name) <==> self@.by_name.contains_key(name),
    {
        proof {
            use_type_invariant(self);
            lemma_by_name(self.profiles@);
            let names = self.names();
            assert forall|name: Seq<char>| #[trigger]
                names.contains(name) <==> self@.by_name.contains_key(name) by {
                if names.contains(name) {
                    let i = choose|i: int| 0 <= i < names.len() && names[i] == name;
                    assert(self.profiles@[i].name@ == name);
                }
                if self@.by_name.contains_key(name) {
                    let i = choose|i: int|
                        0 <= i < self.profiles@.len() && (#[trigger] self.profiles@[i]).name@
                            == name;
                    assert(names[i] == name);
                }
            }
        }
        self.profiles.len()
    }

    /// The profile at one place of the order of `names`. The places from 0
    /// up to `len()` give every profile once.
    pub fn entry(&self, at: usize) -> (profile: &Profile)
        requires
            at < self.names().len(),
        ensures
            profile.name@ == self.names()[at as int],
            self@.by_name.contains_key(profile.name@),
            self@.by_name[profile.name@] == profile.settings,
    {
        proof {
            use_type_invariant(self);
            lemma_by_name(self.profiles@);
        }
        &self.profiles[at]
    }

    /// The configuration under a name, if there is one.
    pub fn profile(&self, name: &String) -> (settings: Option<&StitchSettings>)
        ensures
            settings is Some <==> self@.by_name.contains_key(name@),
            settings is Some ==> *settings->0 == self@.by_name[name@],
    {
        proof {
            use_type_invariant(self);
            lemma_by_name(self.profiles@);
        }
        match self.find(name) {
            Some(at) => Some(&self.profiles[at].settings),
            None => None,
        }
    }

    /// Puts a configuration under a name, in the place of the one that was
    /// there if there was one. The current profile stays.
    pub fn insert_profile(&mut self, name: String, settings: StitchSettings)
        ensures
            final(self)@.current == old(self)@.current,
            final(self)@.by_name == old(self)@.by_name.insert(name@, settings),
    {
        proof {
            use_type_invariant(&*self);
            lemma_by_name(self.profiles@);
        }
        let ghost before = self.profiles@;
        match self.find(&name) {
            Some(at) => {
                let entry = Profile { name, settings };
                let mut profiles: Vec<Profile> = Vec::new();
                core::mem::swap(&mut self.profiles, &mut profiles);
                profiles.set(at, entry);
                proof {
                    lemma_replace(before, at as int, entry);
                }
                self.profiles = profiles;
            },
            None => {
                let entry = Profile { name, settings };
                let mut profiles: Vec<Profile> = Vec::new();
                core::mem::swap(&mut self.profiles, &mut profiles);
                profiles.push(entry);
                proof {
                    assert(profiles@.drop_last() =~= before);
                    assert forall|i: int, j: int| 0 <= i < j < profiles@.len() implies (
                    #[trigger] profiles@[i]).name@ != (#[trigger] profiles@[j]).name@ by {
                        if j < before.len() {
                            assert(profiles@[i] == before[i] && profiles@[j] == before[j]);
                        } else {
                            assert(profiles@[i] == before[i]);
                        }
                    }
                }
                self.profiles = profiles;
            },
        }
    }

    /// Saves a configuration under a name, in the place of the one that was
    /// there if there was one, and makes it the current profile.
    pub fn save_profile(&mut self, name: String, settings: StitchSettings)
        ensures
            final(self)@.current == name@,
            final(self)@.by_name == old(self)@.by_name.insert(name@, settings),
    {
        let current = name.clone();
        self.insert_profile(name, settings);
        proof {
            use_type_invariant(&*self);
        }
        self.current_profile = current;
    }

    /// Deletes the profile of a name. The profile `Default` stays, whatever
    /// is asked. Deleting the current profile makes `Default` the current
    /// one. A name that no profile has changes nothing and is no error.
    pub fn delete_profile(&mut self, name: &String) -> (r: Result<(), ProfileError>)
        ensures
            r is Err <==> name@ == "Default"@,
            r is Err ==> r->Err_0 == ProfileError::CannotDeleteDefault && final(self)@ == old(
                self,
            )@,
            r is Ok ==> final(self)@.by_name == old(self)@.by_name.remove(name@),
            r is Ok ==> final(self)@.current == (if old(self)@.current == name@ {
                "Default"@
            } else {
                old(self)@.current
            }),
    {
        proof {
            use_type_invariant(&*self);
            lemma_by_name(self.profiles@);
        }
        if *name == "Default".to_owned() {
            return Err(ProfileError::CannotDeleteDefault);
        }
        let ghost before = self.profiles@;
        match self.find(name) {
            Some(at) => {
                let mut profiles: Vec<Profile> = Vec::new();
                core::mem::swap(&mut self.profiles, &mut profiles);
                let _ = profiles.remove(at);
                proof {
                    lemma_remove(before, at as int);
                }
                self.profiles = profiles;
            },
            None => {
                assert(self@.by_name.remove(name@) =~= self@.by_name);
            },
        }
        if self.current_profile == *name {
            self.current_profile = "Default".to_owned();
        }
        Ok(())
    }

    /// Makes the profile of a name the current one, if there is one.
    pub fn set_current_profile(&mut self, name: String) -> (r: Result<(), ProfileError>)
        ensures
            r is Ok <==> old(self)@.by_name.contains_key(name@),
            r is Err ==> r->Err_0 == ProfileError::NotFound,
            final(self)@.by_name == old(self)@.by_name,
            final(self)@.current == (if r is Ok {
                name@
            } else {
                old(self)@.current
            }),
    {
        proof {
            use_type_invariant(&*self);
        }
        match self.find(&name) {
            Some(_) => {
                self.current_profile = name;
                Ok(())
            },
            None => Err(ProfileError::NotFound),
        }
    }
}

/// Putting an entry in the place of one of its name puts its configuration
/// under that name, and keeps the names distinct.
proof fn lemma_replace(entries: Seq<Profile>, at: int, entry: Profile)
    requires
        distinct(entries),
        0 <= at < entries.len(),
        entries[at].name@ == entry.name@,
    ensures
        distinct(entries.update(at, entry)),
        by_name(entries.update(at, entry)) == by_name(entries).insert(entry.name@, entry.settings),
{
    let now = entries.update(at, entry);
    assert forall|i: int, j: int| 0 <= i < j < now.len() implies (#[trigger] now[i]).name@ != (
    #[trigger] now[j]).name@ by {
        assert(now[i].name@ == entries[i].name@ && now[j].name@ == entries[j].name@);
    }
    lemma_by_name(entries);
    lemma_by_name(now);
    let target = by_name(entries).insert(entry.name@, entry.settings);
    assert forall|name: Seq<char>| by_name(now).contains_key(name) <==> target.contains_key(
        name,
    ) by {
        if by_name(now).contains_key(name) {
            let i = choose|i: int| 0 <= i < now.len() && (#[trigger] now[i]).name@ == name;
            assert(entries[i].name@ == name);
        }
        if target.contains_key(name) {
            if name == entry.name@ {
                assert(now[at].name@ == name);
            } else {
                let i = choose|i: int| 0 <= i < entries.len() && (#[trigger] entries[i]).name@
                    == name;
                assert(now[i].name@ == name);
            }
        }
    }
    assert forall|name: Seq<char>| by_name(now).contains_key(name) implies by_name(now)[name]
        == target[name] by {
        let i = choose|i: int| 0 <= i < now.len() && (#[trigger] now[i]).name@ == name;
        assert(by_name(now)[now[i].name@] == now[i].settings);
        if i != at {
            assert(now[i] == entries[i]);
            assert(by_name(entries)[entries[i].name@] == entries[i].settings);
            assert(entries[i].name@ != entries[at].name@);
        }
    }
    assert(by_name(now) =~= target);
}

/// Taking an entry out takes its name out, and keeps the names distinct.
proof fn lemma_remove(entries: Seq<Profile>, at: int)
    requires
        distinct(entries),
        0 <= at < entries.len(),
    ensures
        distinct(entries.remove(at)),
        by_name(entries.remove(at)) == by_name(entries).remove(entries[at].name@),
{
    let now = entries.remove(at);
    assert forall|i: int, j: int| 0 <= i < j < now.len() implies (#[trigger] now[i]).name@ != (
    #[trigger] now[j]).name@ by {
        let oi = if i < at {
            i
        } else {
            i + 1
        };
        let oj = if j < at {
            j
        } else {
            j + 1
        };
        assert(now[i] == entries[oi] && now[j] == entries[oj]);
    }
    lemma_by_name(entries);
    lemma_by_name(now);
    let target = by_name(entries).remove(entries[at].name@);
    assert forall|name: Seq<char>| by_name(now).contains_key(name) <==> target.contains_key(
        name,
    ) by {
        if by_name(now).contains_key(name) {
            let i = choose|i: int| 0 <= i < now.len() && (#[trigger] now[i]).name@ == name;
            let oi = if i < at {
                i
            } else {
                i + 1
            };
            assert(now[i] == entries[oi]);
            assert(entries[oi].name@ == name);
            assert(entries[oi].name@ != entries[at].name@);
        }
        if target.contains_key(name) {
            let i = choose|i: int| 0 <= i < entries.len() && (#[trigger] entries[i]).name@
                == name;
            let ni = if i < at {
                i
            } else {
                i - 1
            };
            assert(now[ni] == entries[i]);
            assert(now[ni].name@ == name);
        }
    }
    assert forall|name: Seq<char>| by_name(now).contains_key(name) implies by_name(now)[name]
        == target[name] by {
        let i = choose|i: int| 0 <= i < now.len() && (#[trigger] now[i]).name@ == name;
        let oi = if i < at {
            i
        } else {
            i + 1
        };
        assert(now[i] == entries[oi]);
        assert(by_name(now)[now[i].name@] == now[i].settings);
        assert(by_name(entries)[entries[oi].name@] == entries[oi].settings);
    }
    assert(by_name(now) =~= target);
}

} // verus!
