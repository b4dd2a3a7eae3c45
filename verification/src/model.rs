//! The storage-side post entity of the content graph, and the projections
//! between it and the wire model: storage to wire on send, wire to a
//! storage patch on receive.

use vstd::prelude::*;
use crate::objects::{Note, NoteV, User};
use crate::time::{iso_of, format_utc, MIN_WIRE_TS, MAX_WIRE_TS};

verus! {

/// A post of the content graph. The three self-references and the creator
/// are id-valued edges, not owned links; timestamps are Unix seconds.
#[verifier::ext_equal]
#[derive(Debug)]
pub struct Post {
    pub id: String,
    pub title: Option<String>,
    pub content: String,
    pub local: bool,
    pub created_at: i64,
    pub updated_at: Option<i64>,
    pub reblog_id: Option<String>,
    pub content_type: String,
    pub visibility: String,
    pub reply_id: Option<String>,
    pub quoting_id: Option<String>,
    pub sensitive: bool,
    pub spoiler_text: Option<String>,
    pub creator: String,
    pub url: String,
}

/// The named self-relations a post can carry.
#[derive(Clone, Copy, Debug, PartialEq, Eq, Structural)]
pub enum Relation {
    Reblog,
    Reply,
    Quote,
}

/// A post's timestamps are in the formattable range, and an edit time
/// never precedes the creation time.
pub open spec fn ts_ok(p: Post) -> bool {
    &&& MIN_WIRE_TS <= p.created_at <= MAX_WIRE_TS
    &&& match p.updated_at {
        Some(u) => p.created_at <= u <= MAX_WIRE_TS,
        None => true,
    }
}

/// The id the given relation of a post points at, if any.
pub open spec fn relation_of(p: Post, r: Relation) -> Option<Seq<char>> {
    match r {
        Relation::Reblog => p.reblog_id.deep_view(),
        Relation::Reply => p.reply_id.deep_view(),
        Relation::Quote => p.quoting_id.deep_view(),
    }
}

/// A partial update for a post: `Some` sets the field, `None` leaves it.
/// Identity, authorship, creation time and the relation edges are not
/// patchable.
#[verifier::ext_equal]
#[derive(Debug)]
pub struct PostPatch {
    pub title: Option<String>,
    pub content: Option<String>,
    pub content_type: Option<String>,
    pub visibility: Option<String>,
    pub sensitive: Option<bool>,
    pub spoiler_text: Option<String>,
    pub url: Option<String>,
}

/// Copies an optional string.
pub fn copy_opt(o: &Option<String>) -> (r: Option<String>)
    ensures
        r == *o,
{
    match o {
        Some(s) => Some(s.clone()),
        None => None,
    }
}

/// The wire projection of a post: total for every post whose timestamps
/// are in range. Optional storage fields become optional wire members;
/// self-reference ids pass through verbatim; the creator is addressed by
/// the profile's federation URL; timestamps become fixed ISO-8601 UTC text.
pub open spec fn spec_from_post(p: Post, profile: crate::objects::UserV) -> NoteV {
    NoteV {
        content: p.content@,
        creator: profile.url,
        url: p.url@,
        sensitive: p.sensitive,
        title: p.title.deep_view(),
        content_type: Some(p.content_type@),
        visibility: Some(p.visibility@),
        spoiler_text: p.spoiler_text.deep_view(),
        reblog_id: p.reblog_id.deep_view(),
        reply_id: p.reply_id.deep_view(),
        quoting_id: p.quoting_id.deep_view(),
        created_at: Some(iso_of(p.created_at)),
        updated_at: match p.updated_at {
            Some(u) => Some(iso_of(u)),
            None => None,
        },
    }
}

/// Projects a post onto the wire model; never fails.
pub fn from_post(post: &Post, creator_profile: &User) -> (n: Note)
    requires
        ts_ok(*post),
    ensures
        n@ == spec_from_post(*post, creator_profile@),
{
    let updated_at: Option<String> = match &post.updated_at {
        Some(u) => Some(format_utc(*u)),
        None => None,
    };
    let n = Note {
        content: post.content.clone(),
        creator: creator_profile.url.clone(),
        url: post.url.clone(),
        sensitive: post.sensitive,
        title: copy_opt(&post.title),
        content_type: Some(post.content_type.clone()),
        visibility: Some(post.visibility.clone()),
        spoiler_text: copy_opt(&post.spoiler_text),
        reblog_id: copy_opt(&post.reblog_id),
        reply_id: copy_opt(&post.reply_id),
        quoting_id: copy_opt(&post.quoting_id),
        created_at: Some(format_utc(post.created_at)),
        updated_at,
    };
    proof {
        assert(n@ =~= spec_from_post(*post, creator_profile@));
    }
    n
}

/// The storage patch an inbound note projects to.
pub open spec fn spec_to_post_patch(n: NoteV) -> crate::model::PostPatchV {
    PostPatchV {
        title: n.title,
        content: Some(n.content),
        content_type: n.content_type,
        visibility: n.visibility,
        sensitive: Some(n.sensitive),
        spoiler_text: n.spoiler_text,
        url: Some(n.url),
    }
}

/// The mathematical shape of a [`PostPatch`].
#[verifier::ext_equal]
pub struct PostPatchV {
    pub title: Option<Seq<char>>,
    pub content: Option<Seq<char>>,
    pub content_type: Option<Seq<char>>,
    pub visibility: Option<Seq<char>>,
    pub sensitive: Option<bool>,
    pub spoiler_text: Option<Seq<char>>,
    pub url: Option<Seq<char>>,
}

impl View for PostPatch {
    type V = PostPatchV;

    open spec fn view(&self) -> PostPatchV {
        PostPatchV {
            title: self.title.deep_view(),
            content: self.content.deep_view(),
            content_type: self.content_type.deep_view(),
            visibility: self.visibility.deep_view(),
            sensitive: self.sensitive,
            spoiler_text: self.spoiler_text.deep_view(),
            url: self.url.deep_view(),
        }
    }
}

/// Projects inbound wire data onto a storage patch. The required wire
/// members are guaranteed by the decoded [`Note`]'s own shape, so this
/// projection is total; an inbound text missing them never reaches here,
/// it fails decoding with the schema error instead.
pub fn to_post_patch(note: &Note) -> (r: PostPatch)
    ensures
        r@ == spec_to_post_patch(note@),
{
    let r = PostPatch {
        title: copy_opt(&note.title),
        content: Some(note.content.clone()),
        content_type: copy_opt(&note.content_type),
        visibility: copy_opt(&note.visibility),
        sensitive: Some(note.sensitive),
        spoiler_text: copy_opt(&note.spoiler_text),
        url: Some(note.url.clone()),
    };
    proof {
        assert(r@ =~= spec_to_post_patch(note@));
    }
    r
}

} // verus!
