use vstd::prelude::*;

verus! {

use crate::errors::PGError;

/// Mathematical image of one stored connection profile: the five
/// string fields, as sequences of characters.
pub ghost struct ProfileView {
    pub name: Seq<char>,
    pub host: Seq<char>,
    pub port: Seq<char>,
    pub user: Seq<char>,
    pub dbname: Seq<char>,
}

/// A named, password-free bundle of connection parameters, as persisted
/// in the record store. The name is the unique key; credentials are
/// never part of a profile.
pub struct Profile {
    pub name: String,
    pub host: String,
    pub port: String,
    pub user: String,
    pub dbname: String,
}

impl View for Profile {
    type V = ProfileView;

    open spec fn view(&self) -> ProfileView {
        ProfileView {
            name: self.name@,
            host: self.host@,
            port: self.port@,
            user: self.user@,
            dbname: self.dbname@,
        }
    }
}

impl Profile {
    pub fn new(name: String, host: String, port: String, user: String, dbname: String) -> (r:
        Profile)
        ensures
            r@ == (ProfileView {
                name: name@,
                host: host@,
                port: port@,
                user: user@,
                dbname: dbname@,
            }),
    {
        Profile { name, host, port, user, dbname }
    }

    /// An equal copy of this profile.
    pub fn duplicate(&self) -> (r: Profile)
        ensures
            r@ == self@,
    {
        Profile {
            name: self.name.clone(),
            host: self.host.clone(),
            port: self.port.clone(),
            user: self.user.clone(),
            dbname: self.dbname.clone(),
        }
    }
}

/// True when some profile in `s` carries `name`.
pub open spec fn contains_name(s: Seq<ProfileView>, name: Seq<char>) -> bool {
    exists|i: int| 0 <= i < s.len() && s[i].name == name
}

/// The first profile in `s` named `name`, if any: the linear scan that
/// `load` performs, stated as a recursive function.
pub open spec fn lookup(s: Seq<ProfileView>, name: Seq<char>) -> Option<ProfileView>
    decreases s.len(),
{
    if s.len() == 0 {
        None
    } else if s[0].name == name {
        Some(s[0])
    } else {
        lookup(s.drop_first(), name)
    }
}

/// The images of a sequence of profiles, in order.
pub open spec fn views_of(s: Seq<Profile>) -> Seq<ProfileView> {
    s.map_values(|p: Profile| p@)
}

/// The in-memory image of the record store: the ordered list of saved
/// profiles.
pub struct Store {
    profiles: Vec<Profile>,
}

impl View for Store {
    type V = Seq<ProfileView>;

    closed spec fn view(&self) -> Seq<ProfileView> {
        views_of(self.profiles@)
    }
}

impl Store {
    /// A store with no profiles.
    pub fn empty() -> (s: Store)
        ensures
            s@ == Seq::<ProfileView>::empty(),
    {
        let s = Store { profiles: Vec::new() };
        proof {
            assert(s@ =~= Seq::<ProfileView>::empty());
        }
        s
    }

    /// How many profiles the store holds.
    pub fn len(&self) -> (n: usize)
        ensures
            n == self@.len(),
    {
        self.profiles.len()
    }

    /// The profile at position `i`, in saved order.
    pub fn get(&self, i: usize) -> (r: &Profile)
        requires
            i < self@.len(),
        ensures
            r@ == self@[i as int],
    {
        &self.profiles[i]
    }

    /// Appends `p` after checking its name against every stored profile:
    /// a duplicate name is rejected and the store is left unchanged.
    pub fn save_profile(&mut self, p: Profile) -> (r: Result<(), PGError>)
        ensures
            contains_name(old(self)@, p@.name) ==> r == Err::<(), PGError>(
                PGError::DuplicateConnection,
            ) && final(self)@ == old(self)@,
            !contains_name(old(self)@, p@.name) ==> r == Ok::<(), PGError>(()) && final(self)@
                == old(self)@.push(p@),
    {
        let n = self.profiles.len();
        for i in 0..n
            invariant
                n == self.profiles.len(),
                forall|j: int| 0 <= j < i ==> self@[j].name != p@.name,
                self == old(self),
        {
            if self.profiles[i].name == p.name {
                proof {
                    assert(self@[i as int].name == p@.name);
                }
                return Err(PGError::DuplicateConnection);
            }
        }
        self.profiles.push(p);
        proof {
            assert(final(self)@ =~= old(self)@.push(p@));
        }
        Ok(())
    }

    /// A store holding exactly these profiles, in order: only for
    /// rebuilding a store from its persisted document, which is kept as
    /// it was written.
    pub(crate) fn from_profiles(profiles: Vec<Profile>) -> (s: Store)
        ensures
            s@ == views_of(profiles@),
    {
        Store { profiles }
    }

    /// The linear scan of `load`: the first profile named `name`, or
    /// `MatchNotFound` when no stored profile carries it.
    pub fn find(&self, name: &String) -> (r: Result<Profile, PGError>)
        ensures
            r is Ok <==> contains_name(self@, name@),
            match r {
                Ok(p) => lookup(self@, name@) == Some(p@) && p@.name == name@,
                Err(e) => e == PGError::MatchNotFound && !contains_name(self@, name@),
            },
    {
        let n = self.profiles.len();
        for i in 0..n
            invariant
                n == self.profiles.len(),
                forall|j: int| 0 <= j < i ==> self@[j].name != name@,
        {
            if self.profiles[i].name == *name {
                proof {
                    assert(self@[i as int].name == name@);
                    lemma_lookup_first_match(self@, name@, i as int);
                }
                return Ok(self.profiles[i].duplicate());
            }
        }
        proof {
            lemma_lookup_absent(self@, name@);
        }
        Err(PGError::MatchNotFound)
    }
}

/// When position `i` holds the first profile named `name`, the scan
/// returns exactly that profile.
proof fn lemma_lookup_first_match(s: Seq<ProfileView>, name: Seq<char>, i: int)
    requires
        0 <= i < s.len(),
        s[i].name == name,
        forall|j: int| 0 <= j < i ==> s[j].name != name,
    ensures
        lookup(s, name) == Some(s[i]),
    decreases i,
{
    if i > 0 {
        lemma_lookup_first_match(s.drop_first(), name, i - 1);
    }
}

/// When no profile carries `name`, the scan comes back empty.
proof fn lemma_lookup_absent(s: Seq<ProfileView>, name: Seq<char>)
    requires
        forall|j: int| 0 <= j < s.len() ==> s[j].name != name,
    ensures
        lookup(s, name) is None,
    decreases s.len(),
{
    if s.len() > 0 {
        lemma_lookup_absent(s.drop_first(), name);
    }
}

/// Well-formedness of a store: no two profiles share a name.
pub open spec fn unique_names(s: Seq<ProfileView>) -> bool {
    forall|i: int, j: int| 0 <= i < j < s.len() ==> s[i].name != s[j].name
}

/// A successful save keeps the store's invariant: appending a profile
/// whose name is absent leaves all names distinct.
pub proof fn lemma_save_preserves_uniqueness(s: Seq<ProfileView>, p: ProfileView)
    requires
        unique_names(s),
        !contains_name(s, p.name),
    ensures
        unique_names(s.push(p)),
{
    assert forall|i: int, j: int| 0 <= i < j < s.push(p).len() implies s.push(p)[i].name != s.push(
        p,
    )[j].name by {
        if j < s.len() {
            assert(s.push(p)[i] == s[i] && s.push(p)[j] == s[j]);
        } else {
            assert(s.push(p)[i] == s[i] && s.push(p)[j] == p);
        }
    }
}

/// Round trip: saving a profile under a fresh name and then loading
/// that name returns exactly the profile that was saved.
pub proof fn lemma_save_then_load(s: Seq<ProfileView>, p: ProfileView)
    requires
        !contains_name(s, p.name),
    ensures
        lookup(s.push(p), p.name) == Some(p),
{
    assert forall|j: int| 0 <= j < s.len() implies s.push(p)[j].name != p.name by {
        assert(s.push(p)[j] == s[j]);
    }
    lemma_lookup_first_match(s.push(p), p.name, s.len() as int);
}

/// After a save, the saved name is present, so saving it a second time
/// is rejected as a duplicate and leaves the store unchanged.
pub proof fn lemma_second_save_duplicate(s: Seq<ProfileView>, p: ProfileView)
    ensures
        contains_name(s.push(p), p.name),
{
    assert(s.push(p)[s.len() as int].name == p.name);
}

} // verus!
