//! User profiles, and the directory that keeps them in the order of their
//! identities.

use crate::file::text_view;
use crate::identity::{
    comes_before, lemma_comes_before_is_strict, lemma_comes_before_is_transitive, Identity, Rank,
};
use vstd::prelude::*;

verus! {

/// What is recorded of a user.
#[derive(Debug, PartialEq, Eq)]
pub struct UserProfile {
    pub principal_id: Identity,
    pub username: String,
    pub display_name: Option<String>,
    pub email: Option<String>,
    pub created_at: u64,
    pub last_login: u64,
    /// In bytes.
    pub storage_used: u64,
    pub file_count: u64,
    pub is_active: bool,
}

/// A [`UserProfile`] as the contracts see it.
pub struct UserProfileView {
    pub principal_id: Seq<u8>,
    pub username: Seq<char>,
    pub display_name: Option<Seq<char>>,
    pub email: Option<Seq<char>>,
    pub created_at: u64,
    pub last_login: u64,
    pub storage_used: u64,
    pub file_count: u64,
    pub is_active: bool,
}

impl View for UserProfile {
    type V = UserProfileView;

    open spec fn view(&self) -> UserProfileView {
        UserProfileView {
            principal_id: self.principal_id@,
            username: self.username@,
            display_name: text_view(self.display_name),
            email: text_view(self.email),
            created_at: self.created_at,
            last_login: self.last_login,
            storage_used: self.storage_used,
            file_count: self.file_count,
            is_active: self.is_active,
        }
    }
}

/// A copy of optional text.
fn clone_text(text: &Option<String>) -> (copy: Option<String>)
    ensures
        text_view(copy) == text_view(*text),
{
    match text {
        Some(t) => Some(t.clone()),
        None => None,
    }
}

impl Clone for UserProfile {
    fn clone(&self) -> (copy: Self)
        ensures
            copy@ == self@,
    {
        UserProfile {
            principal_id: self.principal_id,
            username: self.username.clone(),
            display_name: clone_text(&self.display_name),
            email: clone_text(&self.email),
            created_at: self.created_at,
            last_login: self.last_login,
            storage_used: self.storage_used,
            file_count: self.file_count,
            is_active: self.is_active,
        }
    }
}

/// A request to create the caller's profile.
#[derive(Clone, Debug, PartialEq, Eq)]
pub struct CreateUserRequest {
    pub username: String,
    pub display_name: Option<String>,
    pub email: Option<String>,
}

/// A [`CreateUserRequest`] as the contracts see it.
pub struct CreateUserRequestView {
    pub username: Seq<char>,
    pub display_name: Option<Seq<char>>,
    pub email: Option<Seq<char>>,
}

impl View for CreateUserRequest {
    type V = CreateUserRequestView;

    open spec fn view(&self) -> CreateUserRequestView {
        CreateUserRequestView {
            username: self.username@,
            display_name: text_view(self.display_name),
            email: text_view(self.email),
        }
    }
}

/// A request to change the caller's profile. What is `None` stays as it is.
#[derive(Clone, Debug, PartialEq, Eq)]
pub struct UpdateUserRequest {
    pub username: Option<String>,
    pub display_name: Option<String>,
    pub email: Option<String>,
}

/// A [`UpdateUserRequest`] as the contracts see it.
pub struct UpdateUserRequestView {
    pub username: Option<Seq<char>>,
    pub display_name: Option<Seq<char>>,
    pub email: Option<Seq<char>>,
}

impl View for UpdateUserRequest {
    type V = UpdateUserRequestView;

    open spec fn view(&self) -> UpdateUserRequestView {
        UpdateUserRequestView {
            username: text_view(self.username),
            display_name: text_view(self.display_name),
            email: text_view(self.email),
        }
    }
}

/// The answer to a request about the caller's profile.
#[derive(Clone, Debug, PartialEq, Eq)]
pub enum UserResponse {
    Success(UserProfile),
    NotFound,
    AlreadyExists,
    InvalidInput,
    NotAuthenticated,
}

/// A [`UserResponse`] as the contracts see it.
pub enum UserResponseView {
    Success(UserProfileView),
    NotFound,
    AlreadyExists,
    InvalidInput,
    NotAuthenticated,
}

impl View for UserResponse {
    type V = UserResponseView;

    open spec fn view(&self) -> UserResponseView {
        match self {
            UserResponse::Success(profile) => UserResponseView::Success(profile@),
            UserResponse::NotFound => UserResponseView::NotFound,
            UserResponse::AlreadyExists => UserResponseView::AlreadyExists,
            UserResponse::InvalidInput => UserResponseView::InvalidInput,
            UserResponse::NotAuthenticated => UserResponseView::NotAuthenticated,
        }
    }
}

/// The profiles by their views.
pub open spec fn profiles_view(profiles: Seq<UserProfile>) -> Seq<UserProfileView> {
    profiles.map_values(|profile: UserProfile| profile@)
}

/// The answer to a request for all profiles.
#[derive(Clone, Debug, PartialEq, Eq)]
pub enum UserListResponse {
    Success(Vec<UserProfile>),
    NotAuthenticated,
}

/// A [`UserListResponse`] as the contracts see it.
pub enum UserListResponseView {
    Success(Seq<UserProfileView>),
    NotAuthenticated,
}

impl View for UserListResponse {
    type V = UserListResponseView;

    open spec fn view(&self) -> UserListResponseView {
        match self {
            UserListResponse::Success(profiles) => UserListResponseView::Success(
                profiles_view(profiles@),
            ),
            UserListResponse::NotAuthenticated => UserListResponseView::NotAuthenticated,
        }
    }
}

/// `listed` are the profiles of `users`, each once, in the order of their
/// identities.
pub open spec fn lists_all_in_order(
    listed: Seq<UserProfileView>,
    users: Map<Seq<u8>, UserProfileView>,
) -> bool {
    &&& forall|i: int, j: int|
        0 <= i < j < listed.len() ==> comes_before(
            (#[trigger] listed[i]).principal_id,
            (#[trigger] listed[j]).principal_id,
        )
    &&& forall|i: int|
        0 <= i < listed.len() ==> users.contains_key((#[trigger] listed[i]).principal_id)
            && users[listed[i].principal_id] == listed[i]
    &&& forall|who: Seq<u8>| #[trigger]
        users.contains_key(who) ==> exists|i: int|
            0 <= i < listed.len() && (#[trigger] listed[i]).principal_id == who
}

/// The profiles stand in the order of their identities.
spec fn in_order(profiles: Seq<UserProfile>) -> bool {
    forall|i: int, j: int|
        0 <= i < j < profiles.len() ==> comes_before(
            (#[trigger] profiles[i]).principal_id@,
            (#[trigger] profiles[j]).principal_id@,
        )
}

/// Whether one of the profiles is of `who`.
spec fn has_profile(profiles: Seq<UserProfile>, who: Seq<u8>) -> bool {
    exists|i: int| 0 <= i < profiles.len() && (#[trigger] profiles[i]).principal_id@ == who
}

/// Where the profile of `who` stands.
spec fn place_of(profiles: Seq<UserProfile>, who: Seq<u8>) -> int {
    choose|i: int| 0 <= i < profiles.len() && (#[trigger] profiles[i]).principal_id@ == who
}

/// The profiles as a map from the identities.
spec fn directory_map(profiles: Seq<UserProfile>) -> Map<Seq<u8>, UserProfileView> {
    Map::new(
        |who: Seq<u8>| has_profile(profiles, who),
        |who: Seq<u8>| profiles[place_of(profiles, who)]@,
    )
}

/// Among profiles in order, an identity has one place.
proof fn lemma_one_place(profiles: Seq<UserProfile>, place: int)
    requires
        in_order(profiles),
        0 <= place < profiles.len(),
    ensures
        has_profile(profiles, profiles[place].principal_id@),
        place_of(profiles, profiles[place].principal_id@) == place,
        directory_map(profiles).contains_key(profiles[place].principal_id@),
        directory_map(profiles)[profiles[place].principal_id@] == profiles[place]@,
{
    let who = profiles[place].principal_id@;
    let other = place_of(profiles, who);
    lemma_comes_before_is_strict(who, who);
    if other < place {
        assert(comes_before(profiles[other].principal_id@, profiles[place].principal_id@));
    } else if place < other {
        assert(comes_before(profiles[place].principal_id@, profiles[other].principal_id@));
    }
}

/// The profiles of all users, one for each identity.
pub struct UserDirectory {
    profiles: Vec<UserProfile>,
}

impl View for UserDirectory {
    type V = Map<Seq<u8>, UserProfileView>;

    closed spec fn view(&self) -> Map<Seq<u8>, UserProfileView> {
        directory_map(self.profiles@)
    }
}

/// A profile in a directory is kept under the identity that it names.
pub proof fn lemma_profiles_name_their_key(directory: UserDirectory, who: Seq<u8>)
    requires
        directory@.contains_key(who),
    ensures
        directory@[who].principal_id == who,
{
}

impl UserDirectory {
    /// The profiles stand in the order of their identities, so that no
    /// identity has two.
    #[verifier::type_invariant]
    closed spec fn well_formed(self) -> bool {
        in_order(self.profiles@)
    }

    /// A directory without profiles.
    pub fn new() -> (directory: UserDirectory)
        ensures
            directory@ == Map::<Seq<u8>, UserProfileView>::empty(),
    {
        let directory = UserDirectory { profiles: Vec::new() };
        assert(directory@ =~= Map::<Seq<u8>, UserProfileView>::empty());
        directory
    }

    /// The first place whose profile does not come before `who`, and whether
    /// the profile there is of `who`.
    fn place(&self, who: &Identity) -> (found: (usize, bool))
        ensures
            found.0 <= self.profiles@.len(),
            forall|i: int| 0 <= i < found.0 ==> comes_before(
                (#[trigger] self.profiles@[i]).principal_id@,
                who@,
            ),
            forall|i: int|
                found.0 + (if found.1 {
                    1int
                } else {
                    0int
                }) <= i < self.profiles@.len() ==> comes_before(
                    who@,
                    (#[trigger] self.profiles@[i]).principal_id@,
                ),
            found.1 ==> found.0 < self.profiles@.len()
                && self.profiles@[found.0 as int].principal_id@ == who@,
            found.1 == self@.contains_key(who@),
            found.1 ==> self@[who@] == self.profiles@[found.0 as int]@,
    {
        proof {
            use_type_invariant(self);
        }
        let mut i: usize = 0;
        let mut is_there = false;
        while i < self.profiles.len()
            invariant_except_break
                !is_there,
            invariant
                i <= self.profiles@.len(),
                in_order(self.profiles@),
                forall|k: int| 0 <= k < i ==> comes_before(
                    (#[trigger] self.profiles@[k]).principal_id@,
                    who@,
                ),
            ensures
                i <= self.profiles@.len(),
                forall|k: int| 0 <= k < i ==> comes_before(
                    (#[trigger] self.profiles@[k]).principal_id@,
                    who@,
                ),
                is_there ==> i < self.profiles@.len()
                    && self.profiles@[i as int].principal_id@ == who@,
                !is_there && i < self.profiles@.len() ==> comes_before(
                    who@,
                    self.profiles@[i as int].principal_id@,
                ),
            decreases self.profiles@.len() - i,
        {
            match self.profiles[i].principal_id.rank(who) {
                Rank::Before => {
                    i += 1;
                },
                Rank::Same => {
                    is_there = true;
                    break ;
                },
                Rank::After => {
                    break ;
                },
            }
        }
        proof {
            let start = i + (if is_there { 1int } else { 0int });
            assert forall|k: int| start <= k < self.profiles@.len() implies comes_before(
                who@,
                (#[trigger] self.profiles@[k]).principal_id@,
            ) by {
                if k > i {
                    assert(comes_before(
                        self.profiles@[i as int].principal_id@,
                        self.profiles@[k].principal_id@,
                    ));
                    if !is_there {
                        lemma_comes_before_is_transitive(
                            who@,
                            self.profiles@[i as int].principal_id@,
                            self.profiles@[k].principal_id@,
                        );
                    }
                }
            }
            if is_there {
                lemma_one_place(self.profiles@, i as int);
            } else {
                if has_profile(self.profiles@, who@) {
                    let k = place_of(self.profiles@, who@);
                    lemma_comes_before_is_strict(who@, who@);
                    if k < i {
                        assert(comes_before(self.profiles@[k].principal_id@, who@));
                    } else {
                        assert(comes_before(who@, self.profiles@[k].principal_id@));
                    }
                }
            }
        }
        (i, is_there)
    }

    /// Whether the directory has a profile of `who`.
    pub fn contains_key(&self, who: &Identity) -> (present: bool)
        ensures
            present == self@.contains_key(who@),
    {
        self.place(who).1
    }

    /// The profile of `who`.
    pub fn get(&self, who: &Identity) -> (found: Option<&UserProfile>)
        ensures
            found is Some <==> self@.contains_key(who@),
            found matches Some(profile) ==> profile@ == self@[who@],
    {
        let (place, is_there) = self.place(who);
        if is_there {
            Some(&self.profiles[place])
        } else {
            None
        }
    }

    /// Keeps `profile` as the profile of the identity that it names, and
    /// returns the profile that was kept for it before.
    pub fn insert(&mut self, profile: UserProfile) -> (previous: Option<UserProfile>)
        ensures
            final(self)@ == old(self)@.insert(profile.principal_id@, profile@),
            previous is Some <==> old(self)@.contains_key(profile.principal_id@),
            previous matches Some(p) ==> p@ == old(self)@[profile.principal_id@],
    {
        proof {
            use_type_invariant(&*self);
        }
        let ghost before = self.profiles@;
        let ghost who = profile.principal_id@;
        let ghost kept = profile@;
        let (place, is_there) = self.place(&profile.principal_id);
        let mut profiles: Vec<UserProfile> = Vec::new();
        std::mem::swap(&mut self.profiles, &mut profiles);
        if is_there {
            let previous = profiles.remove(place);
            profiles.insert(place, profile);
            proof {
                let after = profiles@;
                assert(after =~= before.update(place as int, after[place as int]));
                assert forall|i: int, j: int| 0 <= i < j < after.len() implies comes_before(
                    (#[trigger] after[i]).principal_id@,
                    (#[trigger] after[j]).principal_id@,
                ) by {
                    assert(comes_before(before[i].principal_id@, before[j].principal_id@));
                }
                assert forall|x: Seq<u8>| has_profile(after, x) <==> has_profile(before, x) by {
                    if has_profile(after, x) {
                        assert(before[place_of(after, x)].principal_id@ == x);
                    }
                    if has_profile(before, x) {
                        assert(after[place_of(before, x)].principal_id@ == x);
                    }
                }
                assert forall|x: Seq<u8>| has_profile(after, x) implies directory_map(after)[x]
                    == directory_map(before).insert(who, kept)[x] by {
                    let i = place_of(after, x);
                    lemma_one_place(after, i);
                    lemma_one_place(before, i);
                }
                assert(has_profile(before, who));
                assert(directory_map(after) =~= directory_map(before).insert(who, kept));
            }
            std::mem::swap(&mut self.profiles, &mut profiles);
            Some(previous)
        } else {
            profiles.insert(place, profile);
            proof {
                let after = profiles@;
                assert forall|i: int, j: int| 0 <= i < j < after.len() implies comes_before(
                    (#[trigger] after[i]).principal_id@,
                    (#[trigger] after[j]).principal_id@,
                ) by {
                    let bi = if i < place { i } else { i - 1 };
                    let bj = if j < place { j } else { j - 1 };
                    if i != place && j != place {
                        assert(comes_before(before[bi].principal_id@, before[bj].principal_id@));
                    } else if i == place {
                        assert(comes_before(who, before[bj].principal_id@));
                    } else {
                        assert(comes_before(before[bi].principal_id@, who));
                    }
                }
                assert forall|x: Seq<u8>| has_profile(after, x) <==> (x == who || has_profile(
                    before,
                    x,
                )) by {
                    if has_profile(after, x) {
                        let i = place_of(after, x);
                        if i != place {
                            let b = if i < place { i } else { i - 1 };
                            assert(before[b].principal_id@ == x);
                        }
                    }
                    if x == who {
                        assert(after[place as int].principal_id@ == x);
                    } else if has_profile(before, x) {
                        let b = place_of(before, x);
                        let i = if b < place { b } else { b + 1 };
                        assert(after[i].principal_id@ == x);
                    }
                }
                assert forall|x: Seq<u8>| has_profile(after, x) implies directory_map(after)[x]
                    == directory_map(before).insert(who, kept)[x] by {
                    let i = place_of(after, x);
                    lemma_one_place(after, i);
                    if i != place {
                        let b = if i < place { i } else { i - 1 };
                        lemma_one_place(before, b);
                        lemma_comes_before_is_strict(who, who);
                    }
                }
                assert(directory_map(after) =~= directory_map(before).insert(who, kept));
            }
            std::mem::swap(&mut self.profiles, &mut profiles);
            None
        }
    }

    /// Takes the profile of `who` out of the directory and returns it.
    pub fn remove(&mut self, who: &Identity) -> (previous: Option<UserProfile>)
        ensures
            final(self)@ == old(self)@.remove(who@),
            previous is Some <==> old(self)@.contains_key(who@),
            previous matches Some(p) ==> p@ == old(self)@[who@],
    {
        proof {
            use_type_invariant(&*self);
        }
        let ghost before = self.profiles@;
        let (place, is_there) = self.place(who);
        if !is_there {
            assert(self@ =~= old(self)@.remove(who@));
            return None;
        }
        let mut profiles: Vec<UserProfile> = Vec::new();
        std::mem::swap(&mut self.profiles, &mut profiles);
        let previous = profiles.remove(place);
        proof {
            let after = profiles@;
            assert forall|i: int, j: int| 0 <= i < j < after.len() implies comes_before(
                (#[trigger] after[i]).principal_id@,
                (#[trigger] after[j]).principal_id@,
            ) by {
                let bi = if i < place { i } else { i + 1 };
                let bj = if j < place { j } else { j + 1 };
                assert(comes_before(before[bi].principal_id@, before[bj].principal_id@));
            }
            assert(directory_map(after) =~= directory_map(before).remove(who@)) by {
                lemma_comes_before_is_strict(who@, who@);
                assert forall|x: Seq<u8>| directory_map(after).contains_key(x) <==> directory_map(
                    before,
                ).remove(who@).contains_key(x) by {
                    if has_profile(after, x) {
                        let i = place_of(after, x);
                        let b = if i < place { i } else { i + 1 };
                        assert(before[b].principal_id@ == x);
                    }
                    if x != who@ && has_profile(before, x) {
                        let b = place_of(before, x);
                        let i = if b < place { b } else { b - 1 };
                        assert(after[i].principal_id@ == x);
                    }
                }
                assert forall|x: Seq<u8>| directory_map(after).contains_key(x) implies directory_map(
                    after,
                )[x] == directory_map(before).remove(who@)[x] by {
                    let i = place_of(after, x);
                    lemma_one_place(after, i);
                    let b = if i < place { i } else { i + 1 };
                    lemma_one_place(before, b);
                }
            }
        }
        std::mem::swap(&mut self.profiles, &mut profiles);
        Some(previous)
    }

    /// All profiles, in the order of their identities.
    pub fn values(&self) -> (listed: Vec<UserProfile>)
        ensures
            lists_all_in_order(profiles_view(listed@), self@),
    {
        proof {
            use_type_invariant(self);
        }
        let mut listed: Vec<UserProfile> = Vec::new();
        let mut i: usize = 0;
        while i < self.profiles.len()
            invariant
                i <= self.profiles@.len(),
                listed@.len() == i,
                forall|k: int| 0 <= k < i ==> (#[trigger] listed@[k])@ == self.profiles@[k]@,
            decreases self.profiles@.len() - i,
        {
            listed.push(self.profiles[i].clone());
            i += 1;
        }
        proof {
            let views = profiles_view(listed@);
            assert forall|k: int| 0 <= k < views.len() implies (#[trigger] views[k])
                == self.profiles@[k]@ by {
                assert(listed@[k]@ == self.profiles@[k]@);
            }
            assert forall|k: int| 0 <= k < views.len() implies self@.contains_key(
                (#[trigger] views[k]).principal_id,
            ) && self@[views[k].principal_id] == views[k] by {
                lemma_one_place(self.profiles@, k);
            }
            assert forall|a: int, b: int| 0 <= a < b < views.len() implies comes_before(
                (#[trigger] views[a]).principal_id,
                (#[trigger] views[b]).principal_id,
            ) by {
                assert(comes_before(
                    self.profiles@[a].principal_id@,
                    self.profiles@[b].principal_id@,
                ));
            }
            assert forall|who: Seq<u8>| #[trigger] self@.contains_key(who) implies exists|k: int|
                0 <= k < views.len() && (#[trigger] views[k]).principal_id == who by {
                let k = place_of(self.profiles@, who);
                assert(views[k].principal_id == who);
            }
        }
        listed
    }
}

} // verus!
