//! Listing the files that a caller owns.

use crate::file::{
    FileContent, FileContentView, FileStatus, FileStatusView, FileView, PublicFileMetadata,
    PublicFileMetadataView,
};
use crate::identity::{anonymous_bytes, Identity};
use crate::owners::owned_by;
use crate::state::{State, StateView};
use vstd::prelude::*;

verus! {

/// What a listing says of the state of a file's content. For an uploaded
/// file without a time of upload, the time of the request stands in.
pub open spec fn status_of(file: FileView) -> FileStatusView {
    match file.content {
        FileContentView::Pending { alias } => FileStatusView::Pending {
            alias,
            requested_at: file.metadata.requested_at,
        },
        FileContentView::PartiallyUploaded { .. } => FileStatusView::PartiallyUploaded,
        FileContentView::Uploaded { .. } => FileStatusView::Uploaded {
            uploaded_at: match file.metadata.uploaded_at {
                Some(uploaded_at) => uploaded_at,
                None => file.metadata.requested_at,
            },
        },
    }
}

/// The entry of a listing for one file. It names no group.
pub open spec fn public_metadata(file_id: u64, file: FileView) -> PublicFileMetadataView {
    PublicFileMetadataView {
        file_id,
        file_name: file.metadata.file_name,
        group_name: Seq::empty(),
        group_alias: None,
        file_status: status_of(file),
    }
}

/// The listing of the files `ids`, in that order. An identifier without a
/// record is passed over.
pub open spec fn listing(files: Map<u64, FileView>, ids: Seq<u64>) -> Seq<PublicFileMetadataView>
    decreases ids.len(),
{
    if ids.len() == 0 {
        Seq::empty()
    } else if files.contains_key(ids.last()) {
        listing(files, ids.drop_last()).push(public_metadata(ids.last(), files[ids.last()]))
    } else {
        listing(files, ids.drop_last())
    }
}

/// The entries of a listing by their views.
pub open spec fn listing_view(entries: Seq<PublicFileMetadata>) -> Seq<PublicFileMetadataView> {
    entries.map_values(|entry: PublicFileMetadata| entry@)
}

/// Where every one of `ids` has a record, the listing has an entry for each,
/// in the same order.
pub proof fn lemma_listing_complete(files: Map<u64, FileView>, ids: Seq<u64>)
    requires
        forall|i: int| 0 <= i < ids.len() ==> files.contains_key(#[trigger] ids[i]),
    ensures
        listing(files, ids).len() == ids.len(),
        forall|i: int|
            0 <= i < ids.len() ==> #[trigger] listing(files, ids)[i] == public_metadata(
                ids[i],
                files[ids[i]],
            ),
    decreases ids.len(),
{
    if ids.len() > 0 {
        let front = ids.drop_last();
        assert forall|i: int| 0 <= i < front.len() implies files.contains_key(
            #[trigger] front[i],
        ) by {
            assert(front[i] == ids[i]);
        }
        lemma_listing_complete(files, front);
        assert(files.contains_key(ids[ids.len() - 1]));
        assert forall|i: int| 0 <= i < ids.len() implies #[trigger] listing(files, ids)[i]
            == public_metadata(ids[i], files[ids[i]]) by {
            if i < front.len() {
                assert(listing(files, front)[i] == public_metadata(front[i], files[front[i]]));
            }
        }
    }
}

/// In a consistent state, the listing for an identity has one entry for each
/// file in its list, in the same order, each of a file that it owns; and
/// every file that an authenticated identity owns is in its list.
pub proof fn lemma_listing_is_of_owned_files(s: StateView, caller: Seq<u8>)
    requires
        s.wf(),
    ensures
        listing(s.files, owned_by(s.owners, caller)).len() == owned_by(s.owners, caller).len(),
        forall|i: int|
            0 <= i < owned_by(s.owners, caller).len() ==> {
                let file_id = owned_by(s.owners, caller)[i];
                &&& s.files.contains_key(file_id)
                &&& s.files[file_id].metadata.requester_principal == caller
                &&& #[trigger] listing(s.files, owned_by(s.owners, caller))[i] == public_metadata(
                    file_id,
                    s.files[file_id],
                )
            },
        forall|file_id: u64|
            caller != anonymous_bytes() && #[trigger] s.files.contains_key(file_id)
                && s.files[file_id].metadata.requester_principal == caller ==> owned_by(
                s.owners,
                caller,
            ).contains(file_id),
{
    let ids = owned_by(s.owners, caller);
    assert forall|i: int| 0 <= i < ids.len() implies s.files.contains_key(#[trigger] ids[i])
        && s.files[ids[i]].metadata.requester_principal == caller by {
        assert(s.owners.contains_key(caller) && s.owners[caller].contains(ids[i]));
    }
    lemma_listing_complete(s.files, ids);
}

/// Lists the files in `caller`'s list, in the order in which they were
/// added to it. A caller who has not authenticated gets no listing.
pub fn list_files(state: &State, caller: Identity) -> (listed: Option<Vec<PublicFileMetadata>>)
    ensures
        listed is None <==> caller@ == anonymous_bytes(),
        listed matches Some(entries) ==> listing_view(entries@) == listing(
            state@.files,
            owned_by(state@.owners, caller@),
        ),
{
    if caller.is_anonymous() {
        return None;
    }
    let empty: Vec<u64> = Vec::new();
    let owned: &Vec<u64> = match state.file_owners.get(&caller) {
        Some(files) => files,
        None => &empty,
    };
    let mut entries: Vec<PublicFileMetadata> = Vec::new();
    let mut i: usize = 0;
    while i < owned.len()
        invariant
            i <= owned@.len(),
            listing_view(entries@) == listing(state@.files, owned@.subrange(0, i as int)),
        decreases owned@.len() - i,
    {
        let file_id = owned[i];
        assert(owned@.subrange(0, i + 1).drop_last() =~= owned@.subrange(0, i as int));
        match state.file_data.get(&file_id) {
            Some(file) => {
                let file_status = match &file.content {
                    FileContent::Pending { alias } => FileStatus::Pending {
                        alias: alias.clone(),
                        requested_at: file.metadata.requested_at,
                    },
                    FileContent::PartiallyUploaded { .. } => FileStatus::PartiallyUploaded,
                    FileContent::Uploaded { .. } => FileStatus::Uploaded {
                        uploaded_at: match file.metadata.uploaded_at {
                            Some(uploaded_at) => uploaded_at,
                            None => file.metadata.requested_at,
                        },
                    },
                };
                let ghost listed_before = entries@;
                entries.push(
                    PublicFileMetadata {
                        file_id,
                        file_name: file.metadata.file_name.clone(),
                        group_name: String::new(),
                        group_alias: None,
                        file_status,
                    },
                );
                assert(listing_view(entries@) =~= listing_view(listed_before).push(
                    public_metadata(file_id, state@.files[file_id]),
                ));
            },
            None => {},
        }
        i += 1;
    }
    assert(owned@.subrange(0, i as int) =~= owned@);
    Some(entries)
}

} // verus!
