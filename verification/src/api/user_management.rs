//! The profiles of the users: creating, reading, changing, deleting and
//! listing them, and counting what a user stores.

use crate::file::{text_view, FileView};
use crate::identity::{anonymous_bytes, Identity};
use crate::owners::owned_by;
use crate::state::{State, StateView};
use crate::text::{byte_len, is_blank, normalize, normalized, trimmed};
use crate::users::{
    lemma_profiles_name_their_key, lists_all_in_order, CreateUserRequest, CreateUserRequestView,
    UpdateUserRequest, UserListResponse, UserListResponseView, UserProfile, UserProfileView,
    UserResponse, UserResponseView,
};
use vstd::prelude::*;

verus! {

/// The most bytes a username can have.
pub const MAX_USERNAME_BYTES: usize = 50;

/// The profile of a user who has just been created.
pub open spec fn new_profile(
    caller: Seq<u8>,
    username: Seq<char>,
    request: CreateUserRequestView,
    now: u64,
) -> UserProfileView {
    UserProfileView {
        principal_id: caller,
        username,
        display_name: request.display_name,
        email: request.email,
        created_at: now,
        last_login: now,
        storage_used: 0,
        file_count: 0,
        is_active: true,
    }
}

/// The answer to `caller` asking for a profile under `username`, where
/// `blank` says whether the name that was asked for is blank. The conditions
/// are tried in this order: the caller has authenticated; the name asked for
/// is not blank and has at most 50 bytes; the caller has no profile yet;
/// nobody has the username.
pub open spec fn create_user_result(
    s: StateView,
    caller: Seq<u8>,
    request: CreateUserRequestView,
    blank: bool,
    username: Seq<char>,
    now: u64,
) -> UserResponseView {
    if caller == anonymous_bytes() {
        UserResponseView::NotAuthenticated
    } else if blank || byte_len(request.username) > MAX_USERNAME_BYTES {
        UserResponseView::InvalidInput
    } else if s.users.contains_key(caller) {
        UserResponseView::AlreadyExists
    } else if s.usernames.contains_key(username) {
        UserResponseView::AlreadyExists
    } else {
        UserResponseView::Success(new_profile(caller, username, request, now))
    }
}

/// The state after `caller` asked for a profile under `username`: the
/// profile is there, the username is the caller's and one more user is
/// counted, if the request was granted; nothing changes if not.
pub open spec fn create_user_step(
    s: StateView,
    caller: Seq<u8>,
    request: CreateUserRequestView,
    blank: bool,
    username: Seq<char>,
    now: u64,
) -> StateView {
    if create_user_result(s, caller, request, blank, username, now) is Success {
        StateView {
            users: s.users.insert(caller, new_profile(caller, username, request, now)),
            usernames: s.usernames.insert(username, caller),
            user_count: (s.user_count + 1) as u64,
            ..s
        }
    } else {
        s
    }
}

/// Creates the caller's profile at time `now`, under the username that the
/// request asks for, trimmed and in lower case.
pub fn create_user_profile(
    caller: Identity,
    request: CreateUserRequest,
    now: u64,
    state: &mut State,
) -> (response: UserResponse)
    requires
        old(state).user_count < u64::MAX,
    ensures
        response@ == create_user_result(
            old(state)@,
            caller@,
            request@,
            trimmed(request.username@).len() == 0,
            normalized(request.username@),
            now,
        ),
        final(state)@ == create_user_step(
            old(state)@,
            caller@,
            request@,
            trimmed(request.username@).len() == 0,
            normalized(request.username@),
            now,
        ),
        users_consistent(old(state)@) ==> users_consistent(final(state)@),
{
    let blank = is_blank(request.username.as_str());
    let username = normalize(request.username.as_str());
    create_user_with_username(caller, request, blank, username, now, state)
}

/// Creates the caller's profile at time `now` under `username`, which is the
/// name that the request asks for in the form in which usernames are
/// compared; `blank` says whether the name asked for is blank.
pub fn create_user_with_username(
    caller: Identity,
    request: CreateUserRequest,
    blank: bool,
    username: String,
    now: u64,
    state: &mut State,
) -> (response: UserResponse)
    requires
        old(state).user_count < u64::MAX,
    ensures
        response@ == create_user_result(old(state)@, caller@, request@, blank, username@, now),
        final(state)@ == create_user_step(old(state)@, caller@, request@, blank, username@, now),
        users_consistent(old(state)@) ==> users_consistent(final(state)@),
{
    proof {
        if users_consistent(state@) {
            lemma_create_user_keeps_consistent(state@, caller@, request@, blank, username@, now);
        }
    }
    if caller.is_anonymous() {
        return UserResponse::NotAuthenticated;
    }
    if blank || request.username.as_str().as_bytes().len() > MAX_USERNAME_BYTES {
        return UserResponse::InvalidInput;
    }
    if state.user_profiles.contains_key(&caller) {
        return UserResponse::AlreadyExists;
    }
    if state.username_to_principal.contains_key(&username) {
        return UserResponse::AlreadyExists;
    }
    let profile = UserProfile {
        principal_id: caller,
        username: username.clone(),
        display_name: request.display_name,
        email: request.email,
        created_at: now,
        last_login: now,
        storage_used: 0,
        file_count: 0,
        is_active: true,
    };
    let answer = profile.clone();
    state.user_profiles.insert(profile);
    state.username_to_principal.insert(username, caller);
    state.user_count += 1;
    UserResponse::Success(answer)
}

/// The answer to `caller` asking for its profile.
pub open spec fn get_user_result(s: StateView, caller: Seq<u8>) -> UserResponseView {
    if caller == anonymous_bytes() {
        UserResponseView::NotAuthenticated
    } else if s.users.contains_key(caller) {
        UserResponseView::Success(s.users[caller])
    } else {
        UserResponseView::NotFound
    }
}

/// The caller's profile.
pub fn get_user_profile(caller: Identity, state: &State) -> (response: UserResponse)
    ensures
        response@ == get_user_result(state@, caller@),
{
    if caller.is_anonymous() {
        return UserResponse::NotAuthenticated;
    }
    match state.user_profiles.get(&caller) {
        Some(profile) => UserResponse::Success(profile.clone()),
        None => UserResponse::NotFound,
    }
}

/// `old_text`, or `new_text` where there is one.
pub open spec fn replaced_text(old_text: Option<Seq<char>>, new_text: Option<Seq<char>>) -> Option<
    Seq<char>,
> {
    match new_text {
        Some(text) => Some(text),
        None => old_text,
    }
}

/// A profile after a change: `username`, the display name and the e-mail
/// address are replaced where the change gives one.
pub open spec fn updated_profile(
    profile: UserProfileView,
    username: Option<Seq<char>>,
    display_name: Option<Seq<char>>,
    email: Option<Seq<char>>,
) -> UserProfileView {
    UserProfileView {
        username: match username {
            Some(name) => name,
            None => profile.username,
        },
        display_name: replaced_text(profile.display_name, display_name),
        email: replaced_text(profile.email, email),
        ..profile
    }
}

/// The answer to `caller` asking to change its profile, where `username` is
/// the new username, if one is asked for, in the form in which usernames are
/// compared. The conditions are tried in this order: the caller has
/// authenticated; it has a profile; the new username is not empty and has at
/// most 50 bytes; nobody else has it.
pub open spec fn update_user_result(
    s: StateView,
    caller: Seq<u8>,
    username: Option<Seq<char>>,
    display_name: Option<Seq<char>>,
    email: Option<Seq<char>>,
) -> UserResponseView {
    if caller == anonymous_bytes() {
        UserResponseView::NotAuthenticated
    } else if !s.users.contains_key(caller) {
        UserResponseView::NotFound
    } else if username matches Some(name) && (name.len() == 0 || byte_len(name)
        > MAX_USERNAME_BYTES) {
        UserResponseView::InvalidInput
    } else if username matches Some(name) && s.usernames.contains_key(name) && s.usernames[name]
        != caller {
        UserResponseView::AlreadyExists
    } else {
        UserResponseView::Success(updated_profile(s.users[caller], username, display_name, email))
    }
}

/// The state after `caller` asked to change its profile: the profile is
/// changed, and a new username is the caller's in place of the old one, if
/// the request was granted; nothing changes if not.
pub open spec fn update_user_step(
    s: StateView,
    caller: Seq<u8>,
    username: Option<Seq<char>>,
    display_name: Option<Seq<char>>,
    email: Option<Seq<char>>,
) -> StateView {
    if update_user_result(s, caller, username, display_name, email) is Success {
        StateView {
            users: s.users.insert(
                caller,
                updated_profile(s.users[caller], username, display_name, email),
            ),
            usernames: match username {
                Some(name) => s.usernames.remove(s.users[caller].username).insert(name, caller),
                None => s.usernames,
            },
            ..s
        }
    } else {
        s
    }
}

/// The username that a change asks for, in the form in which usernames are
/// compared.
pub open spec fn normalized_choice(username: Option<Seq<char>>) -> Option<Seq<char>> {
    match username {
        Some(name) => Some(normalized(name)),
        None => None,
    }
}

/// Changes the caller's profile as the request asks. A new username is
/// trimmed and put in lower case first.
pub fn update_user_profile(caller: Identity, request: UpdateUserRequest, state: &mut State) -> (response:
    UserResponse)
    ensures
        response@ == update_user_result(
            old(state)@,
            caller@,
            normalized_choice(request@.username),
            request@.display_name,
            request@.email,
        ),
        final(state)@ == update_user_step(
            old(state)@,
            caller@,
            normalized_choice(request@.username),
            request@.display_name,
            request@.email,
        ),
        users_consistent(old(state)@) ==> users_consistent(final(state)@),
{
    let username = match &request.username {
        Some(name) => Some(normalize(name.as_str())),
        None => None,
    };
    update_user_with_username(caller, username, request.display_name, request.email, state)
}

/// Changes the caller's profile: the username, the display name and the
/// e-mail address are replaced where one is given. `username` is in the form
/// in which usernames are compared.
pub fn update_user_with_username(
    caller: Identity,
    username: Option<String>,
    display_name: Option<String>,
    email: Option<String>,
    state: &mut State,
) -> (response: UserResponse)
    ensures
        response@ == update_user_result(
            old(state)@,
            caller@,
            text_view(username),
            text_view(display_name),
            text_view(email),
        ),
        final(state)@ == update_user_step(
            old(state)@,
            caller@,
            text_view(username),
            text_view(display_name),
            text_view(email),
        ),
        users_consistent(old(state)@) ==> users_consistent(final(state)@),
{
    proof {
        if users_consistent(state@) {
            lemma_update_user_keeps_consistent(
                state@,
                caller@,
                text_view(username),
                text_view(display_name),
                text_view(email),
            );
        }
    }
    if caller.is_anonymous() {
        return UserResponse::NotAuthenticated;
    }
    let mut profile = match state.user_profiles.get(&caller) {
        Some(profile) => profile.clone(),
        None => {
            return UserResponse::NotFound;
        },
    };
    proof {
        lemma_profiles_name_their_key(state.user_profiles, caller@);
    }
    if let Some(name) = username {
        if name.as_str().is_empty() || name.as_str().as_bytes().len() > MAX_USERNAME_BYTES {
            return UserResponse::InvalidInput;
        }
        if let Some(existing) = state.username_to_principal.get(&name) {
            if !existing.same_as(&caller) {
                return UserResponse::AlreadyExists;
            }
        }
        state.username_to_principal.remove(&profile.username);
        profile.username = name.clone();
        state.username_to_principal.insert(name, caller);
    }
    if let Some(text) = display_name {
        profile.display_name = Some(text);
    }
    if let Some(text) = email {
        profile.email = Some(text);
    }
    let answer = profile.clone();
    state.user_profiles.insert(profile);
    UserResponse::Success(answer)
}

/// The state after `caller` asked to delete its profile: the profile is
/// gone, its username is nobody's and one user less is counted, if the
/// caller had a profile; nothing changes if not.
pub open spec fn delete_user_step(s: StateView, caller: Seq<u8>) -> StateView {
    if get_user_result(s, caller) is Success {
        StateView {
            users: s.users.remove(caller),
            usernames: s.usernames.remove(s.users[caller].username),
            user_count: if s.user_count > 0 {
                (s.user_count - 1) as u64
            } else {
                0
            },
            ..s
        }
    } else {
        s
    }
}

/// Deletes the caller's profile and returns it. The caller's files stay.
pub fn delete_user_profile(caller: Identity, state: &mut State) -> (response: UserResponse)
    ensures
        response@ == get_user_result(old(state)@, caller@),
        final(state)@ == delete_user_step(old(state)@, caller@),
        users_consistent(old(state)@) ==> users_consistent(final(state)@),
{
    proof {
        if users_consistent(state@) {
            lemma_delete_user_keeps_consistent(state@, caller@);
        }
    }
    if caller.is_anonymous() {
        return UserResponse::NotAuthenticated;
    }
    let profile = match state.user_profiles.remove(&caller) {
        Some(profile) => profile,
        None => {
            assert(state@.users =~= old(state)@.users);
            return UserResponse::NotFound;
        },
    };
    state.username_to_principal.remove(&profile.username);
    if state.user_count > 0 {
        state.user_count -= 1;
    }
    UserResponse::Success(profile)
}

/// All profiles, in the order of the users' identities, for a caller who has
/// authenticated.
pub fn list_users(caller: Identity, state: &State) -> (response: UserListResponse)
    ensures
        caller@ == anonymous_bytes() ==> response@ == UserListResponseView::NotAuthenticated,
        caller@ != anonymous_bytes() ==> response@ is Success && lists_all_in_order(
            response@->Success_0,
            state@.users,
        ),
{
    if caller.is_anonymous() {
        return UserListResponse::NotAuthenticated;
    }
    UserListResponse::Success(state.user_profiles.values())
}

/// The profiles and the usernames agree: each profile is kept under the
/// identity that it names, its username is that user's, each username is
/// that of its user's profile, and the users are counted.
pub open spec fn users_consistent(s: StateView) -> bool {
    &&& forall|who: Seq<u8>| #[trigger]
        s.users.contains_key(who) ==> {
            &&& s.users[who].principal_id == who
            &&& s.usernames.contains_key(s.users[who].username)
            &&& s.usernames[s.users[who].username] == who
        }
    &&& forall|name: Seq<char>| #[trigger]
        s.usernames.contains_key(name) ==> {
            &&& s.users.contains_key(s.usernames[name])
            &&& s.users[s.usernames[name]].username == name
        }
    &&& s.users.dom().finite()
    &&& s.users.dom().len() == s.user_count
}

/// Where the profiles and the usernames agree, no two users have the same
/// username.
pub proof fn lemma_usernames_are_unique(s: StateView, one: Seq<u8>, other: Seq<u8>)
    requires
        users_consistent(s),
        s.users.contains_key(one),
        s.users.contains_key(other),
        s.users[one].username == s.users[other].username,
    ensures
        one == other,
{
}

/// Creating a profile keeps the profiles and the usernames in agreement.
pub proof fn lemma_create_user_keeps_consistent(
    s: StateView,
    caller: Seq<u8>,
    request: CreateUserRequestView,
    blank: bool,
    username: Seq<char>,
    now: u64,
)
    requires
        users_consistent(s),
        s.user_count < u64::MAX,
    ensures
        users_consistent(create_user_step(s, caller, request, blank, username, now)),
{
    let t = create_user_step(s, caller, request, blank, username, now);
    if create_user_result(s, caller, request, blank, username, now) is Success {
        assert forall|who: Seq<u8>| #[trigger] t.users.contains_key(who) implies {
            &&& t.users[who].principal_id == who
            &&& t.usernames.contains_key(t.users[who].username)
            &&& t.usernames[t.users[who].username] == who
        } by {
            if who != caller {
                assert(s.users.contains_key(who));
            }
        }
        assert forall|name: Seq<char>| #[trigger] t.usernames.contains_key(name) implies {
            &&& t.users.contains_key(t.usernames[name])
            &&& t.users[t.usernames[name]].username == name
        } by {
            if name != username {
                assert(s.usernames.contains_key(name));
            }
        }
    }
}

/// Changing a profile keeps the profiles and the usernames in agreement.
pub proof fn lemma_update_user_keeps_consistent(
    s: StateView,
    caller: Seq<u8>,
    username: Option<Seq<char>>,
    display_name: Option<Seq<char>>,
    email: Option<Seq<char>>,
)
    requires
        users_consistent(s),
    ensures
        users_consistent(update_user_step(s, caller, username, display_name, email)),
{
    let t = update_user_step(s, caller, username, display_name, email);
    if update_user_result(s, caller, username, display_name, email) is Success {
        assert(t.users.dom() =~= s.users.dom());
        assert forall|who: Seq<u8>| #[trigger] t.users.contains_key(who) implies {
            &&& t.users[who].principal_id == who
            &&& t.usernames.contains_key(t.users[who].username)
            &&& t.usernames[t.users[who].username] == who
        } by {
            assert(s.users.contains_key(who));
            assert(s.users.contains_key(caller));
        }
        assert forall|name: Seq<char>| #[trigger] t.usernames.contains_key(name) implies {
            &&& t.users.contains_key(t.usernames[name])
            &&& t.users[t.usernames[name]].username == name
        } by {
            if username is Some && name != username->0 {
                assert(s.usernames.contains_key(name));
            }
            if username is None {
                assert(s.usernames.contains_key(name));
            }
        }
    }
}

/// Deleting a profile keeps the profiles and the usernames in agreement.
pub proof fn lemma_delete_user_keeps_consistent(s: StateView, caller: Seq<u8>)
    requires
        users_consistent(s),
    ensures
        users_consistent(delete_user_step(s, caller)),
{
    let t = delete_user_step(s, caller);
    if get_user_result(s, caller) is Success {
        assert forall|who: Seq<u8>| #[trigger] t.users.contains_key(who) implies {
            &&& t.users[who].principal_id == who
            &&& t.usernames.contains_key(t.users[who].username)
            &&& t.usernames[t.users[who].username] == who
        } by {
            assert(s.users.contains_key(who));
        }
        assert forall|name: Seq<char>| #[trigger] t.usernames.contains_key(name) implies {
            &&& t.users.contains_key(t.usernames[name])
            &&& t.users[t.usernames[name]].username == name
        } by {
            assert(s.usernames.contains_key(name));
        }
    }
}

/// The bytes of the chunks of file `file_id` that are stored with an index
/// below `upto`.
pub open spec fn chunk_bytes(chunks: Map<(u64, u64), Seq<u8>>, file_id: u64, upto: nat) -> nat
    decreases upto,
{
    if upto == 0 {
        0
    } else {
        let chunk = (file_id, (upto - 1) as u64);
        chunk_bytes(chunks, file_id, (upto - 1) as nat) + if chunks.contains_key(chunk) {
            chunks[chunk].len()
        } else {
            0
        }
    }
}

/// The bytes that are stored for the files `ids`: for each one that has a
/// record, the bytes of its chunks below the number it was announced with.
pub open spec fn stored_bytes(
    files: Map<u64, FileView>,
    chunks: Map<(u64, u64), Seq<u8>>,
    ids: Seq<u64>,
) -> nat
    decreases ids.len(),
{
    if ids.len() == 0 {
        0
    } else {
        stored_bytes(files, chunks, ids.drop_last()) + if files.contains_key(ids.last()) {
            chunk_bytes(chunks, ids.last(), files[ids.last()].content.num_chunks() as nat)
        } else {
            0
        }
    }
}

/// `total` as a 64-bit counter that starts again at 0 after its greatest
/// value shows it.
pub open spec fn wrapped(total: nat) -> u64 {
    (total % 0x1_0000_0000_0000_0000) as u64
}

/// Adding to a 64-bit counter that wraps shows the sum, wrapped.
pub proof fn lemma_wrapped_sum(total: nat, more: u64)
    ensures
        vstd::wrapping::u64_specs::wrapping_add(wrapped(total), more) == wrapped(
            (total + more) as nat,
        ),
{
    let m = 0x1_0000_0000_0000_0000int;
    let q = total as int / m;
    let r = total as int % m;
    vstd::arithmetic::div_mod::lemma_fundamental_div_mod(total as int, m);
    if r + more >= m {
        vstd::arithmetic::div_mod::lemma_fundamental_div_mod_converse(
            total + more,
            m,
            q + 1,
            r + more - m,
        );
    } else {
        vstd::arithmetic::div_mod::lemma_fundamental_div_mod_converse(
            total + more,
            m,
            q,
            r + more,
        );
    }
}

/// The caller's profile with what it stores: the bytes of the chunks of the
/// files in its list, counted in 64 bits, the number of files in its list,
/// and `now` as the time of its last login.
pub open spec fn user_stats_result(s: StateView, caller: Seq<u8>, now: u64) -> UserResponseView {
    if caller == anonymous_bytes() {
        UserResponseView::NotAuthenticated
    } else if !s.users.contains_key(caller) {
        UserResponseView::NotFound
    } else {
        UserResponseView::Success(
            UserProfileView {
                storage_used: wrapped(stored_bytes(s.files, s.chunks, owned_by(s.owners, caller))),
                file_count: owned_by(s.owners, caller).len() as u64,
                last_login: now,
                ..s.users[caller]
            },
        )
    }
}

/// The caller's profile at time `now`, with the bytes and the number of the
/// files in its list. Nothing is recorded.
pub fn get_user_stats(caller: Identity, now: u64, state: &State) -> (response: UserResponse)
    ensures
        response@ == user_stats_result(state@, caller@, now),
{
    if caller.is_anonymous() {
        return UserResponse::NotAuthenticated;
    }
    let mut profile = match state.user_profiles.get(&caller) {
        Some(profile) => profile.clone(),
        None => {
            return UserResponse::NotFound;
        },
    };
    let empty: Vec<u64> = Vec::new();
    let owned: &Vec<u64> = match state.file_owners.get(&caller) {
        Some(files) => files,
        None => &empty,
    };
    let mut total: u64 = 0;
    let mut i: usize = 0;
    while i < owned.len()
        invariant
            i <= owned@.len(),
            total == wrapped(stored_bytes(state@.files, state@.chunks, owned@.subrange(0, i as int))),
        decreases owned@.len() - i,
    {
        let file_id = owned[i];
        let ghost counted = stored_bytes(state@.files, state@.chunks, owned@.subrange(0, i as int));
        assert(owned@.subrange(0, i + 1).drop_last() =~= owned@.subrange(0, i as int));
        if let Some(file) = state.file_data.get(&file_id) {
            let num_chunks = file.content.num_chunks();
            let mut chunk_id: u64 = 0;
            while chunk_id < num_chunks
                invariant
                    chunk_id <= num_chunks,
                    total == wrapped(
                        counted + chunk_bytes(state@.chunks, file_id, chunk_id as nat),
                    ),
                decreases num_chunks - chunk_id,
            {
                if let Some(chunk) = state.file_contents.get(&(file_id, chunk_id)) {
                    proof {
                        lemma_wrapped_sum(
                            counted + chunk_bytes(state@.chunks, file_id, chunk_id as nat),
                            chunk.len() as u64,
                        );
                    }
                    total = total.wrapping_add(chunk.len() as u64);
                }
                chunk_id += 1;
            }
        }
        i += 1;
    }
    assert(owned@.subrange(0, i as int) =~= owned@);
    profile.storage_used = total;
    profile.file_count = owned.len() as u64;
    profile.last_login = now;
    UserResponse::Success(profile)
}

} // verus!
