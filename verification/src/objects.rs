//! The federation wire model: the `Note`, `User` and `Outbox` records that
//! cross the wire, the typed envelope that names an object's kind, and the
//! canonical codec between those records and wire text.

use vstd::prelude::*;
use crate::FedError;
use crate::json::{JsonVal, JsonField, ValV, FieldV, fields_view, enc_obj, canon, str_lit,
    lookup, encode_canonical, get_field, distinct_keys, lemma_lookup_canon, lemma_lookup_concat};
use crate::parse::{sp_object, sp_string, skip_ws, parse_object, parse_string, trim_ws,
    lemma_parse_object, lemma_parse_string, lemma_skip_ws_id};
use crate::strutil::str_eq;

verus! {

/// The wire projection of a post. The three required members and the
/// sensitivity flag are always on the wire; every other member is omitted
/// when absent. Identifiers and timestamps are opaque pass-through strings.
#[derive(Debug)]
pub struct Note {
    pub content: String,
    pub creator: String,
    pub url: String,
    pub sensitive: bool,
    pub title: Option<String>,
    pub content_type: Option<String>,
    pub visibility: Option<String>,
    pub spoiler_text: Option<String>,
    pub reblog_id: Option<String>,
    pub reply_id: Option<String>,
    pub quoting_id: Option<String>,
    pub created_at: Option<String>,
    pub updated_at: Option<String>,
}

/// The mathematical shape of a [`Note`].
#[verifier::ext_equal]
pub struct NoteV {
    pub content: Seq<char>,
    pub creator: Seq<char>,
    pub url: Seq<char>,
    pub sensitive: bool,
    pub title: Option<Seq<char>>,
    pub content_type: Option<Seq<char>>,
    pub visibility: Option<Seq<char>>,
    pub spoiler_text: Option<Seq<char>>,
    pub reblog_id: Option<Seq<char>>,
    pub reply_id: Option<Seq<char>>,
    pub quoting_id: Option<Seq<char>>,
    pub created_at: Option<Seq<char>>,
    pub updated_at: Option<Seq<char>>,
}

impl View for Note {
    type V = NoteV;

    open spec fn view(&self) -> NoteV {
        NoteV {
            content: self.content@,
            creator: self.creator@,
            url: self.url@,
            sensitive: self.sensitive,
            title: self.title.deep_view(),
            content_type: self.content_type.deep_view(),
            visibility: self.visibility.deep_view(),
            spoiler_text: self.spoiler_text.deep_view(),
            reblog_id: self.reblog_id.deep_view(),
            reply_id: self.reply_id.deep_view(),
            quoting_id: self.quoting_id.deep_view(),
            created_at: self.created_at.deep_view(),
            updated_at: self.updated_at.deep_view(),
        }
    }
}

/// The federation-visible profile projection of a user; an independent
/// schema from any storage row, carrying only wire-meant members.
#[derive(Debug)]
pub struct User {
    pub id: String,
    pub username: String,
    pub url: String,
    pub display_name: Option<String>,
    pub created_at: Option<String>,
}

/// The mathematical shape of a [`User`].
#[verifier::ext_equal]
pub struct UserV {
    pub id: Seq<char>,
    pub username: Seq<char>,
    pub url: Seq<char>,
    pub display_name: Option<Seq<char>>,
    pub created_at: Option<Seq<char>>,
}

impl View for User {
    type V = UserV;

    open spec fn view(&self) -> UserV {
        UserV {
            id: self.id@,
            username: self.username@,
            url: self.url@,
            display_name: self.display_name.deep_view(),
            created_at: self.created_at.deep_view(),
        }
    }
}

/// An ordered collection of a user's outgoing objects, carried as the
/// owning author and the item addresses in their meaningful order.
#[derive(Debug)]
pub struct Outbox {
    pub author: String,
    pub items: Vec<String>,
}

/// The mathematical shape of an [`Outbox`].
#[verifier::ext_equal]
pub struct OutboxV {
    pub author: Seq<char>,
    pub items: Seq<Seq<char>>,
}

impl View for Outbox {
    type V = OutboxV;

    open spec fn view(&self) -> OutboxV {
        OutboxV { author: self.author@, items: self.items.deep_view() }
    }
}

/// The semantic kinds a wire object can have; the envelope's discriminator
/// names one of these so a decoder can dispatch before fully parsing.
#[derive(Clone, Copy, Debug, PartialEq, Eq, Structural)]
pub enum LysandType {
    Note,
    User,
    Follow,
    Outbox,
    Delete,
}

/// The wire name of each kind.
pub open spec fn kind_name(t: LysandType) -> Seq<char> {
    match t {
        LysandType::Note => "Note"@,
        LysandType::User => "User"@,
        LysandType::Follow => "Follow"@,
        LysandType::Outbox => "Outbox"@,
        LysandType::Delete => "Delete"@,
    }
}

/// The kind a wire name stands for, if it is known.
pub open spec fn kind_of_name(s: Seq<char>) -> Option<LysandType> {
    if s == "Note"@ {
        Some(LysandType::Note)
    } else if s == "User"@ {
        Some(LysandType::User)
    } else if s == "Follow"@ {
        Some(LysandType::Follow)
    } else if s == "Outbox"@ {
        Some(LysandType::Outbox)
    } else if s == "Delete"@ {
        Some(LysandType::Delete)
    } else {
        None
    }
}

/// An optional string member: a singleton if present, nothing if absent.
pub open spec fn opt_sfield(k: Seq<char>, o: Option<Seq<char>>) -> Seq<FieldV> {
    match o {
        Some(s) => seq![(k, ValV::S(s))],
        None => Seq::<FieldV>::empty(),
    }
}

/// The members a note puts on the wire, in declaration order; absent
/// optional members are omitted entirely, never emitted as null.
pub open spec fn note_fieldsv(v: NoteV) -> Seq<FieldV> {
    seq![
        ("content"@, ValV::S(v.content)),
        ("creator"@, ValV::S(v.creator)),
        ("url"@, ValV::S(v.url)),
        ("sensitive"@, ValV::B(v.sensitive)),
    ] + opt_sfield("title"@, v.title)
        + opt_sfield("content_type"@, v.content_type)
        + opt_sfield("visibility"@, v.visibility)
        + opt_sfield("spoiler_text"@, v.spoiler_text)
        + opt_sfield("reblog_id"@, v.reblog_id)
        + opt_sfield("reply_id"@, v.reply_id)
        + opt_sfield("quoting_id"@, v.quoting_id)
        + opt_sfield("created_at"@, v.created_at)
        + opt_sfield("updated_at"@, v.updated_at)
}

/// The members a user profile puts on the wire, in declaration order.
pub open spec fn user_fieldsv(v: UserV) -> Seq<FieldV> {
    seq![
        ("id"@, ValV::S(v.id)),
        ("username"@, ValV::S(v.username)),
        ("url"@, ValV::S(v.url)),
    ] + opt_sfield("display_name"@, v.display_name)
        + opt_sfield("created_at"@, v.created_at)
}

/// The members an outbox puts on the wire, in declaration order.
pub open spec fn outbox_fieldsv(v: OutboxV) -> Seq<FieldV> {
    seq![("author"@, ValV::S(v.author)), ("items"@, ValV::A(v.items))]
}

/// The canonical wire text of a note.
pub open spec fn spec_note_wire(v: NoteV) -> Seq<char> {
    enc_obj(canon(note_fieldsv(v)))
}

/// The canonical wire text of a user profile.
pub open spec fn spec_user_wire(v: UserV) -> Seq<char> {
    enc_obj(canon(user_fieldsv(v)))
}

/// The canonical wire text of an outbox.
pub open spec fn spec_outbox_wire(v: OutboxV) -> Seq<char> {
    enc_obj(canon(outbox_fieldsv(v)))
}

/// The wire text of an envelope kind: its quoted name.
pub open spec fn spec_type_wire(t: LysandType) -> Seq<char> {
    str_lit(kind_name(t))
}

/// Projects a note onto its wire members, in declaration order.
pub fn note_to_fields(n: &Note) -> (fs: Vec<JsonField>)
    ensures
        fields_view(fs@) == note_fieldsv(n@),
{
    let ghost v = n@;
    let mut fs: Vec<JsonField> = Vec::new();
    fs.push(JsonField { key: String::from_str("content"), val: JsonVal::VStr(n.content.clone()) });
    fs.push(JsonField { key: String::from_str("creator"), val: JsonVal::VStr(n.creator.clone()) });
    fs.push(JsonField { key: String::from_str("url"), val: JsonVal::VStr(n.url.clone()) });
    fs.push(JsonField { key: String::from_str("sensitive"), val: JsonVal::VBool(n.sensitive) });
    let ghost g0 = seq![
        ("content"@, ValV::S(v.content)),
        ("creator"@, ValV::S(v.creator)),
        ("url"@, ValV::S(v.url)),
        ("sensitive"@, ValV::B(v.sensitive)),
    ];
    proof {
        assert(fields_view(fs@) =~= g0);
    }
    push_opt(&mut fs, "title", &n.title);
    let ghost g1 = g0 + opt_sfield("title"@, v.title);
    proof {
        assert(fields_view(fs@) == g1);
    }
    push_opt(&mut fs, "content_type", &n.content_type);
    let ghost g2 = g1 + opt_sfield("content_type"@, v.content_type);
    push_opt(&mut fs, "visibility", &n.visibility);
    let ghost g3 = g2 + opt_sfield("visibility"@, v.visibility);
    push_opt(&mut fs, "spoiler_text", &n.spoiler_text);
    let ghost g4 = g3 + opt_sfield("spoiler_text"@, v.spoiler_text);
    push_opt(&mut fs, "reblog_id", &n.reblog_id);
    let ghost g5 = g4 + opt_sfield("reblog_id"@, v.reblog_id);
    push_opt(&mut fs, "reply_id", &n.reply_id);
    let ghost g6 = g5 + opt_sfield("reply_id"@, v.reply_id);
    push_opt(&mut fs, "quoting_id", &n.quoting_id);
    let ghost g7 = g6 + opt_sfield("quoting_id"@, v.quoting_id);
    push_opt(&mut fs, "created_at", &n.created_at);
    let ghost g8 = g7 + opt_sfield("created_at"@, v.created_at);
    push_opt(&mut fs, "updated_at", &n.updated_at);
    let ghost g9 = g8 + opt_sfield("updated_at"@, v.updated_at);
    proof {
        assert(fields_view(fs@) == g9);
        assert(g9 == note_fieldsv(v));
    }
    fs
}

/// Appends an optional string member if it is present.
fn push_opt(fs: &mut Vec<JsonField>, key: &str, o: &Option<String>)
    ensures
        fields_view(final(fs)@) == fields_view(old(fs)@) + opt_sfield(key@, o.deep_view()),
{
    match o {
        Some(s) => {
            fs.push(JsonField { key: String::from_str(key), val: JsonVal::VStr(s.clone()) });
            proof {
                assert(fields_view(fs@) =~= fields_view(old(fs)@) + opt_sfield(key@, o.deep_view()));
            }
        },
        None => {
            proof {
                assert(fields_view(fs@) =~= fields_view(old(fs)@) + opt_sfield(key@, o.deep_view()));
            }
        },
    }
}

/// Projects a user profile onto its wire members, in declaration order.
pub fn user_to_fields(u: &User) -> (fs: Vec<JsonField>)
    ensures
        fields_view(fs@) == user_fieldsv(u@),
{
    let ghost v = u@;
    let mut fs: Vec<JsonField> = Vec::new();
    fs.push(JsonField { key: String::from_str("id"), val: JsonVal::VStr(u.id.clone()) });
    fs.push(JsonField { key: String::from_str("username"), val: JsonVal::VStr(u.username.clone()) });
    fs.push(JsonField { key: String::from_str("url"), val: JsonVal::VStr(u.url.clone()) });
    let ghost g0 = seq![
        ("id"@, ValV::S(v.id)),
        ("username"@, ValV::S(v.username)),
        ("url"@, ValV::S(v.url)),
    ];
    proof {
        assert(fields_view(fs@) =~= g0);
    }
    push_opt(&mut fs, "display_name", &u.display_name);
    let ghost g1 = g0 + opt_sfield("display_name"@, v.display_name);
    push_opt(&mut fs, "created_at", &u.created_at);
    let ghost g2 = g1 + opt_sfield("created_at"@, v.created_at);
    proof {
        assert(fields_view(fs@) == g2);
        assert(g2 == user_fieldsv(v));
    }
    fs
}

/// Projects an outbox onto its wire members.
pub fn outbox_to_fields(o: &Outbox) -> (fs: Vec<JsonField>)
    ensures
        fields_view(fs@) == outbox_fieldsv(o@),
{
    let mut items: Vec<String> = Vec::new();
    let n = o.items.len();
    let mut i: usize = 0;
    while i < n
        invariant
            i <= n,
            n == o.items@.len(),
            items@.len() == i,
            forall|j: int| 0 <= j < i ==> (#[trigger] items@[j])@ == o.items@[j]@,
        decreases n - i,
    {
        items.push(o.items[i].clone());
        i = i + 1;
    }
    proof {
        assert forall|j: int| 0 <= j < n
            implies items.deep_view()[j] == o.items.deep_view()[j] by {
            assert(items@[j]@ == o.items@[j]@);
        }
        assert(items.deep_view() =~= o.items.deep_view());
    }
    let mut fs: Vec<JsonField> = Vec::new();
    fs.push(JsonField { key: String::from_str("author"), val: JsonVal::VStr(o.author.clone()) });
    fs.push(JsonField { key: String::from_str("items"), val: JsonVal::VArr(items) });
    proof {
        assert(fields_view(fs@) =~= outbox_fieldsv(o@));
    }
    fs
}

/// Encodes a user profile canonically. Encoding is total: it succeeds for
/// every well-formed in-memory profile, and member keys appear in strict
/// ascending code-point order whatever order the members were given in.
pub fn serialize_user(user: &User) -> (r: String)
    ensures
        r@ == spec_user_wire(user@),
{
    encode_canonical(user_to_fields(user))
}

/// Encodes a note canonically; total, with strictly ordered keys.
pub fn serialize_note(post: &Note) -> (r: String)
    ensures
        r@ == spec_note_wire(post@),
{
    encode_canonical(note_to_fields(post))
}

/// Encodes an outbox canonically; total, with strictly ordered keys.
pub fn serialize_outbox(outbox: &Outbox) -> (r: String)
    ensures
        r@ == spec_outbox_wire(outbox@),
{
    encode_canonical(outbox_to_fields(outbox))
}

/// Encodes an envelope kind as its quoted wire name.
pub fn serialize_lysand_type(lysand_type: &LysandType) -> (r: String)
    ensures
        r@ == spec_type_wire(*lysand_type),
{
    let name: &str = match lysand_type {
        LysandType::Note => "Note",
        LysandType::User => "User",
        LysandType::Follow => "Follow",
        LysandType::Outbox => "Outbox",
        LysandType::Delete => "Delete",
    };
    let mut out = String::new();
    crate::json::write_str_lit(&mut out, name);
    out
}

/// The key's value as a required string: `None` means absent or mistyped.
pub open spec fn req_str_at(fs: Seq<FieldV>, k: Seq<char>) -> Option<Seq<char>> {
    match lookup(fs, k) {
        Some(ValV::S(s)) => Some(s),
        _ => None,
    }
}

/// The key's value as an optional string: outer `None` means mistyped,
/// `Some(None)` means absent.
pub open spec fn opt_str_at(fs: Seq<FieldV>, k: Seq<char>) -> Option<Option<Seq<char>>> {
    match lookup(fs, k) {
        Some(ValV::S(s)) => Some(Some(s)),
        Some(_) => None,
        None => Some(None),
    }
}

/// The key's value as a flag: `None` means mistyped; absent reads as false.
pub open spec fn bool_at(fs: Seq<FieldV>, k: Seq<char>) -> Option<bool> {
    match lookup(fs, k) {
        Some(ValV::B(b)) => Some(b),
        Some(_) => None,
        None => Some(false),
    }
}

/// The key's value as a required string array: `None` means absent or mistyped.
pub open spec fn arr_at(fs: Seq<FieldV>, k: Seq<char>) -> Option<Seq<Seq<char>>> {
    match lookup(fs, k) {
        Some(ValV::A(xs)) => Some(xs),
        _ => None,
    }
}

/// Decoded members satisfy the note schema: `content`, `creator` and `url`
/// present as strings, and every known member carries the right shape.
pub open spec fn note_wf_fields(fs: Seq<FieldV>) -> bool {
    &&& req_str_at(fs, "content"@) is Some
    &&& req_str_at(fs, "creator"@) is Some
    &&& req_str_at(fs, "url"@) is Some
    &&& bool_at(fs, "sensitive"@) is Some
    &&& opt_str_at(fs, "title"@) is Some
    &&& opt_str_at(fs, "content_type"@) is Some
    &&& opt_str_at(fs, "visibility"@) is Some
    &&& opt_str_at(fs, "spoiler_text"@) is Some
    &&& opt_str_at(fs, "reblog_id"@) is Some
    &&& opt_str_at(fs, "reply_id"@) is Some
    &&& opt_str_at(fs, "quoting_id"@) is Some
    &&& opt_str_at(fs, "created_at"@) is Some
    &&& opt_str_at(fs, "updated_at"@) is Some
}

/// A present option's content, or empty.
pub open spec fn str_or_empty(o: Option<Seq<char>>) -> Seq<char> {
    match o {
        Some(s) => s,
        None => Seq::<char>::empty(),
    }
}

/// The inner option, or absent.
pub open spec fn opt_or_none(o: Option<Option<Seq<char>>>) -> Option<Seq<char>> {
    match o {
        Some(x) => x,
        None => None,
    }
}

/// The note a well-formed member list decodes to. Member order never
/// matters here: only what each key maps to.
pub open spec fn note_of_fields(fs: Seq<FieldV>) -> NoteV {
    NoteV {
        content: str_or_empty(req_str_at(fs, "content"@)),
        creator: str_or_empty(req_str_at(fs, "creator"@)),
        url: str_or_empty(req_str_at(fs, "url"@)),
        sensitive: match bool_at(fs, "sensitive"@) {
            Some(b) => b,
            None => false,
        },
        title: opt_or_none(opt_str_at(fs, "title"@)),
        content_type: opt_or_none(opt_str_at(fs, "content_type"@)),
        visibility: opt_or_none(opt_str_at(fs, "visibility"@)),
        spoiler_text: opt_or_none(opt_str_at(fs, "spoiler_text"@)),
        reblog_id: opt_or_none(opt_str_at(fs, "reblog_id"@)),
        reply_id: opt_or_none(opt_str_at(fs, "reply_id"@)),
        quoting_id: opt_or_none(opt_str_at(fs, "quoting_id"@)),
        created_at: opt_or_none(opt_str_at(fs, "created_at"@)),
        updated_at: opt_or_none(opt_str_at(fs, "updated_at"@)),
    }
}

/// Decoded members satisfy the user schema.
pub open spec fn user_wf_fields(fs: Seq<FieldV>) -> bool {
    &&& req_str_at(fs, "id"@) is Some
    &&& req_str_at(fs, "username"@) is Some
    &&& req_str_at(fs, "url"@) is Some
    &&& opt_str_at(fs, "display_name"@) is Some
    &&& opt_str_at(fs, "created_at"@) is Some
}

/// The user profile a well-formed member list decodes to.
pub open spec fn user_of_fields(fs: Seq<FieldV>) -> UserV {
    UserV {
        id: str_or_empty(req_str_at(fs, "id"@)),
        username: str_or_empty(req_str_at(fs, "username"@)),
        url: str_or_empty(req_str_at(fs, "url"@)),
        display_name: opt_or_none(opt_str_at(fs, "display_name"@)),
        created_at: opt_or_none(opt_str_at(fs, "created_at"@)),
    }
}

/// Decoded members satisfy the outbox schema.
pub open spec fn outbox_wf_fields(fs: Seq<FieldV>) -> bool {
    &&& req_str_at(fs, "author"@) is Some
    &&& arr_at(fs, "items"@) is Some
}

/// The outbox a well-formed member list decodes to.
pub open spec fn outbox_of_fields(fs: Seq<FieldV>) -> OutboxV {
    OutboxV {
        author: str_or_empty(req_str_at(fs, "author"@)),
        items: match arr_at(fs, "items"@) {
            Some(xs) => xs,
            None => Seq::<Seq<char>>::empty(),
        },
    }
}

/// Copies a string vector, preserving its contents.
fn clone_str_vec(v: &Vec<String>) -> (r: Vec<String>)
    ensures
        r.deep_view() == v.deep_view(),
{
    let mut out: Vec<String> = Vec::new();
    let n = v.len();
    let mut i: usize = 0;
    while i < n
        invariant
            i <= n,
            n == v@.len(),
            out@.len() == i,
            forall|j: int| 0 <= j < i ==> (#[trigger] out@[j])@ == v@[j]@,
        decreases n - i,
    {
        out.push(v[i].clone());
        i = i + 1;
    }
    proof {
        assert forall|j: int| 0 <= j < n
            implies out.deep_view()[j] == v.deep_view()[j] by {
            assert(out@[j]@ == v@[j]@);
        }
        assert(out.deep_view() =~= v.deep_view());
    }
    out
}

/// Reads a required string member.
fn req_str_field(fs: &Vec<JsonField>, key: &str) -> (r: Result<String, FedError>)
    ensures
        match r {
            Ok(s) => req_str_at(fields_view(fs@), key@) == Some(s@),
            Err(e) => req_str_at(fields_view(fs@), key@) is None
                && e == FedError::SchemaViolation,
        },
{
    match get_field(fs, key) {
        Some(v) => match v {
            JsonVal::VStr(s) => Ok(s.clone()),
            _ => Err(FedError::SchemaViolation),
        },
        None => Err(FedError::SchemaViolation),
    }
}

/// Reads an optional string member.
fn opt_str_field(fs: &Vec<JsonField>, key: &str) -> (r: Result<Option<String>, FedError>)
    ensures
        match r {
            Ok(o) => opt_str_at(fields_view(fs@), key@) == Some(o.deep_view()),
            Err(e) => opt_str_at(fields_view(fs@), key@) is None
                && e == FedError::SchemaViolation,
        },
{
    match get_field(fs, key) {
        Some(v) => match v {
            JsonVal::VStr(s) => Ok(Some(s.clone())),
            _ => Err(FedError::SchemaViolation),
        },
        None => Ok(None),
    }
}

/// Rebuilds a note from decoded members; fails with the schema error when a
/// required member is absent or any known member is mistyped.
pub fn note_from_fields(fs: &Vec<JsonField>) -> (r: Result<Note, FedError>)
    ensures
        note_wf_fields(fields_view(fs@)) ==> (r matches Ok(n)
            && n@ == note_of_fields(fields_view(fs@))),
        !note_wf_fields(fields_view(fs@)) ==> r == Err::<Note, FedError>(
            FedError::SchemaViolation,
        ),
{
    let content = match req_str_field(fs, "content") {
        Ok(s) => s,
        Err(e) => {
            return Err(e);
        },
    };
    let creator = match req_str_field(fs, "creator") {
        Ok(s) => s,
        Err(e) => {
            return Err(e);
        },
    };
    let url = match req_str_field(fs, "url") {
        Ok(s) => s,
        Err(e) => {
            return Err(e);
        },
    };
    let sensitive: bool = match get_field(fs, "sensitive") {
        Some(v) => match v {
            JsonVal::VBool(b) => *b,
            _ => {
                return Err(FedError::SchemaViolation);
            },
        },
        None => false,
    };
    let title = match opt_str_field(fs, "title") {
        Ok(o) => o,
        Err(e) => {
            return Err(e);
        },
    };
    let content_type = match opt_str_field(fs, "content_type") {
        Ok(o) => o,
        Err(e) => {
            return Err(e);
        },
    };
    let visibility = match opt_str_field(fs, "visibility") {
        Ok(o) => o,
        Err(e) => {
            return Err(e);
        },
    };
    let spoiler_text = match opt_str_field(fs, "spoiler_text") {
        Ok(o) => o,
        Err(e) => {
            return Err(e);
        },
    };
    let reblog_id = match opt_str_field(fs, "reblog_id") {
        Ok(o) => o,
        Err(e) => {
            return Err(e);
        },
    };
    let reply_id = match opt_str_field(fs, "reply_id") {
        Ok(o) => o,
        Err(e) => {
            return Err(e);
        },
    };
    let quoting_id = match opt_str_field(fs, "quoting_id") {
        Ok(o) => o,
        Err(e) => {
            return Err(e);
        },
    };
    let created_at = match opt_str_field(fs, "created_at") {
        Ok(o) => o,
        Err(e) => {
            return Err(e);
        },
    };
    let updated_at = match opt_str_field(fs, "updated_at") {
        Ok(o) => o,
        Err(e) => {
            return Err(e);
        },
    };
    let n = Note {
        content,
        creator,
        url,
        sensitive,
        title,
        content_type,
        visibility,
        spoiler_text,
        reblog_id,
        reply_id,
        quoting_id,
        created_at,
        updated_at,
    };
    proof {
        assert(n@ =~= note_of_fields(fields_view(fs@)));
    }
    Ok(n)
}

/// Rebuilds a user profile from decoded members.
pub fn user_from_fields(fs: &Vec<JsonField>) -> (r: Result<User, FedError>)
    ensures
        user_wf_fields(fields_view(fs@)) ==> (r matches Ok(u)
            && u@ == user_of_fields(fields_view(fs@))),
        !user_wf_fields(fields_view(fs@)) ==> r == Err::<User, FedError>(
            FedError::SchemaViolation,
        ),
{
    let id = match req_str_field(fs, "id") {
        Ok(s) => s,
        Err(e) => {
            return Err(e);
        },
    };
    let username = match req_str_field(fs, "username") {
        Ok(s) => s,
        Err(e) => {
            return Err(e);
        },
    };
    let url = match req_str_field(fs, "url") {
        Ok(s) => s,
        Err(e) => {
            return Err(e);
        },
    };
    let display_name = match opt_str_field(fs, "display_name") {
        Ok(o) => o,
        Err(e) => {
            return Err(e);
        },
    };
    let created_at = match opt_str_field(fs, "created_at") {
        Ok(o) => o,
        Err(e) => {
            return Err(e);
        },
    };
    let u = User { id, username, url, display_name, created_at };
    proof {
        assert(u@ =~= user_of_fields(fields_view(fs@)));
    }
    Ok(u)
}

/// Rebuilds an outbox from decoded members.
pub fn outbox_from_fields(fs: &Vec<JsonField>) -> (r: Result<Outbox, FedError>)
    ensures
        outbox_wf_fields(fields_view(fs@)) ==> (r matches Ok(o)
            && o@ == outbox_of_fields(fields_view(fs@))),
        !outbox_wf_fields(fields_view(fs@)) ==> r == Err::<Outbox, FedError>(
            FedError::SchemaViolation,
        ),
{
    let author = match req_str_field(fs, "author") {
        Ok(s) => s,
        Err(e) => {
            return Err(e);
        },
    };
    let items: Vec<String> = match get_field(fs, "items") {
        Some(v) => match v {
            JsonVal::VArr(xs) => clone_str_vec(xs),
            _ => {
                return Err(FedError::SchemaViolation);
            },
        },
        None => {
            return Err(FedError::SchemaViolation);
        },
    };
    let o = Outbox { author, items };
    proof {
        assert(o@ =~= outbox_of_fields(fields_view(fs@)));
    }
    Ok(o)
}

/// Decodes wire text into a note. Malformed text is the decode error;
/// well-formed text whose members break the schema is the schema error.
pub fn deserialize_note(data: &str) -> (r: Result<Note, FedError>)
    ensures
        match sp_object(data@) {
            Some(fv) => {
                if note_wf_fields(fv) {
                    r matches Ok(n) && n@ == note_of_fields(fv)
                } else {
                    r == Err::<Note, FedError>(FedError::SchemaViolation)
                }
            },
            None => r == Err::<Note, FedError>(FedError::DecodeError),
        },
{
    match parse_object(data) {
        Some(fs) => note_from_fields(&fs),
        None => Err(FedError::DecodeError),
    }
}

/// Decodes wire text into a user profile; the same two error kinds.
pub fn deserialize_user(data: &str) -> (r: Result<User, FedError>)
    ensures
        match sp_object(data@) {
            Some(fv) => {
                if user_wf_fields(fv) {
                    r matches Ok(u) && u@ == user_of_fields(fv)
                } else {
                    r == Err::<User, FedError>(FedError::SchemaViolation)
                }
            },
            None => r == Err::<User, FedError>(FedError::DecodeError),
        },
{
    match parse_object(data) {
        Some(fs) => user_from_fields(&fs),
        None => Err(FedError::DecodeError),
    }
}

/// Decodes wire text into an outbox; the same two error kinds.
pub fn deserialize_outbox(data: &str) -> (r: Result<Outbox, FedError>)
    ensures
        match sp_object(data@) {
            Some(fv) => {
                if outbox_wf_fields(fv) {
                    r matches Ok(o) && o@ == outbox_of_fields(fv)
                } else {
                    r == Err::<Outbox, FedError>(FedError::SchemaViolation)
                }
            },
            None => r == Err::<Outbox, FedError>(FedError::DecodeError),
        },
{
    match parse_object(data) {
        Some(fs) => outbox_from_fields(&fs),
        None => Err(FedError::DecodeError),
    }
}

/// Matches a wire name against the known kinds.
fn kind_from_str(name: &str) -> (r: Result<LysandType, FedError>)
    ensures
        match kind_of_name(name@) {
            Some(t) => r == Ok::<LysandType, FedError>(t),
            None => r == Err::<LysandType, FedError>(FedError::SchemaViolation),
        },
{
    if str_eq(name, "Note") {
        Ok(LysandType::Note)
    } else if str_eq(name, "User") {
        Ok(LysandType::User)
    } else if str_eq(name, "Follow") {
        Ok(LysandType::Follow)
    } else if str_eq(name, "Outbox") {
        Ok(LysandType::Outbox)
    } else if str_eq(name, "Delete") {
        Ok(LysandType::Delete)
    } else {
        Err(FedError::SchemaViolation)
    }
}

/// Decodes a quoted kind name, tolerating surrounding whitespace.
/// Malformed or trailing text is the decode error; an unknown kind is the
/// schema error.
pub fn deserialize_lysand_type(data: &str) -> (r: Result<LysandType, FedError>)
    ensures
        match sp_string(skip_ws(data@)) {
            Some(p) => {
                if skip_ws(p.1).len() == 0 {
                    match kind_of_name(p.0) {
                        Some(t) => r == Ok::<LysandType, FedError>(t),
                        None => r == Err::<LysandType, FedError>(FedError::SchemaViolation),
                    }
                } else {
                    r == Err::<LysandType, FedError>(FedError::DecodeError)
                }
            },
            None => r == Err::<LysandType, FedError>(FedError::DecodeError),
        },
{
    match parse_string(trim_ws(data)) {
        Some(p) => {
            let (name, rest) = p;
            if trim_ws(rest).unicode_len() != 0 {
                return Err(FedError::DecodeError);
            }
            kind_from_str(name.as_str())
        },
        None => Err(FedError::DecodeError),
    }
}

/// Pre-parses only the discriminator member `type` to route a payload to
/// the right full decoder, without committing to one object schema.
pub fn identify_kind(data: &str) -> (r: Result<LysandType, FedError>)
    ensures
        match sp_object(data@) {
            Some(fv) => match lookup(fv, "type"@) {
                Some(v) => match v {
                    ValV::S(nm) => match kind_of_name(nm) {
                        Some(t) => r == Ok::<LysandType, FedError>(t),
                        None => r == Err::<LysandType, FedError>(FedError::SchemaViolation),
                    },
                    _ => r == Err::<LysandType, FedError>(FedError::SchemaViolation),
                },
                None => r == Err::<LysandType, FedError>(FedError::SchemaViolation),
            },
            None => r == Err::<LysandType, FedError>(FedError::DecodeError),
        },
{
    match parse_object(data) {
        Some(fs) => match get_field(&fs, "type") {
            Some(v) => match v {
                JsonVal::VStr(s) => kind_from_str(s.as_str()),
                _ => Err(FedError::SchemaViolation),
            },
            None => Err(FedError::SchemaViolation),
        },
        None => Err(FedError::DecodeError),
    }
}

/// Appending an optional member with a different key (or an absent one)
/// never changes what an earlier key maps to.
proof fn lemma_lookup_skip_opt(a: Seq<FieldV>, k2: Seq<char>, o: Option<Seq<char>>, k: Seq<char>)
    requires
        k != k2 || o is None,
    ensures
        lookup(a + opt_sfield(k2, o), k) == lookup(a, k),
{
    lemma_lookup_concat(a, opt_sfield(k2, o), k);
    match o {
        Some(s) => {
            let seg = opt_sfield(k2, o);
            assert(seg[0].0 == k2);
            assert(seg.drop_first() =~= Seq::<FieldV>::empty());
            assert(lookup(Seq::<FieldV>::empty(), k) is None);
            assert(lookup(seg, k) is None);
        },
        None => {},
    }
}

/// Appending an optional member binds its own key exactly when present,
/// provided the key was unbound before.
proof fn lemma_lookup_at_opt(a: Seq<FieldV>, k: Seq<char>, o: Option<Seq<char>>)
    requires
        lookup(a, k) is None,
    ensures
        lookup(a + opt_sfield(k, o), k) == match o {
            Some(s) => Some(ValV::S(s)),
            None => None::<ValV>,
        },
{
    lemma_lookup_concat(a, opt_sfield(k, o), k);
    match o {
        Some(s) => {
            let seg = opt_sfield(k, o);
            assert(seg[0].0 == k);
            assert(lookup(seg, k) == Some(ValV::S(s)));
        },
        None => {},
    }
}

/// Appending a fresh-keyed optional member keeps keys pairwise distinct.
proof fn lemma_distinct_step(a: Seq<FieldV>, ks: Set<Seq<char>>, k: Seq<char>, o: Option<Seq<char>>)
    requires
        distinct_keys(a),
        forall|i: int| 0 <= i < a.len() ==> ks.contains((#[trigger] a[i]).0),
        !ks.contains(k),
    ensures
        distinct_keys(a + opt_sfield(k, o)),
        forall|i: int| 0 <= i < (a + opt_sfield(k, o)).len()
            ==> ks.insert(k).contains(((a + opt_sfield(k, o))[i]).0),
{
    let b = a + opt_sfield(k, o);
    assert forall|i: int, j: int| 0 <= i < j < b.len() implies b[i].0 != b[j].0 by {
        if j < a.len() {
            assert(b[i] == a[i]);
            assert(b[j] == a[j]);
        } else {
            assert(b[i] == a[i]);
            assert(b[j].0 == k);
            assert(ks.contains(a[i].0));
        }
    }
    assert forall|i: int| 0 <= i < b.len() implies ks.insert(k).contains(b[i].0) by {
        if i < a.len() {
            assert(ks.contains(a[i].0));
        } else {
            assert(b[i].0 == k);
        }
    }
}

/// The thirteen note member keys are pairwise distinct strings.
proof fn lemma_keys_differ()
    ensures
        "content"@ != "creator"@,
        "content"@ != "url"@,
        "content"@ != "sensitive"@,
        "content"@ != "title"@,
        "content"@ != "content_type"@,
        "content"@ != "visibility"@,
        "content"@ != "spoiler_text"@,
        "content"@ != "reblog_id"@,
        "content"@ != "reply_id"@,
        "content"@ != "quoting_id"@,
        "content"@ != "created_at"@,
        "content"@ != "updated_at"@,
        "creator"@ != "url"@,
        "creator"@ != "sensitive"@,
        "creator"@ != "title"@,
        "creator"@ != "content_type"@,
        "creator"@ != "visibility"@,
        "creator"@ != "spoiler_text"@,
        "creator"@ != "reblog_id"@,
        "creator"@ != "reply_id"@,
        "creator"@ != "quoting_id"@,
        "creator"@ != "created_at"@,
        "creator"@ != "updated_at"@,
        "url"@ != "sensitive"@,
        "url"@ != "title"@,
        "url"@ != "content_type"@,
        "url"@ != "visibility"@,
        "url"@ != "spoiler_text"@,
        "url"@ != "reblog_id"@,
        "url"@ != "reply_id"@,
        "url"@ != "quoting_id"@,
        "url"@ != "created_at"@,
        "url"@ != "updated_at"@,
        "sensitive"@ != "title"@,
        "sensitive"@ != "content_type"@,
        "sensitive"@ != "visibility"@,
        "sensitive"@ != "spoiler_text"@,
        "sensitive"@ != "reblog_id"@,
        "sensitive"@ != "reply_id"@,
        "sensitive"@ != "quoting_id"@,
        "sensitive"@ != "created_at"@,
        "sensitive"@ != "updated_at"@,
        "title"@ != "content_type"@,
        "title"@ != "visibility"@,
        "title"@ != "spoiler_text"@,
        "title"@ != "reblog_id"@,
        "title"@ != "reply_id"@,
        "title"@ != "quoting_id"@,
        "title"@ != "created_at"@,
        "title"@ != "updated_at"@,
        "content_type"@ != "visibility"@,
        "content_type"@ != "spoiler_text"@,
        "content_type"@ != "reblog_id"@,
        "content_type"@ != "reply_id"@,
        "content_type"@ != "quoting_id"@,
        "content_type"@ != "created_at"@,
        "content_type"@ != "updated_at"@,
        "visibility"@ != "spoiler_text"@,
        "visibility"@ != "reblog_id"@,
        "visibility"@ != "reply_id"@,
        "visibility"@ != "quoting_id"@,
        "visibility"@ != "created_at"@,
        "visibility"@ != "updated_at"@,
        "spoiler_text"@ != "reblog_id"@,
        "spoiler_text"@ != "reply_id"@,
        "spoiler_text"@ != "quoting_id"@,
        "spoiler_text"@ != "created_at"@,
        "spoiler_text"@ != "updated_at"@,
        "reblog_id"@ != "reply_id"@,
        "reblog_id"@ != "quoting_id"@,
        "reblog_id"@ != "created_at"@,
        "reblog_id"@ != "updated_at"@,
        "reply_id"@ != "quoting_id"@,
        "reply_id"@ != "created_at"@,
        "reply_id"@ != "updated_at"@,
        "quoting_id"@ != "created_at"@,
        "quoting_id"@ != "updated_at"@,
        "created_at"@ != "updated_at"@,
{
    reveal_strlit("content");
    reveal_strlit("creator");
    reveal_strlit("url");
    reveal_strlit("sensitive");
    reveal_strlit("title");
    reveal_strlit("content_type");
    reveal_strlit("visibility");
    reveal_strlit("spoiler_text");
    reveal_strlit("reblog_id");
    reveal_strlit("reply_id");
    reveal_strlit("quoting_id");
    reveal_strlit("created_at");
    reveal_strlit("updated_at");
    assert("content"@.len() == 7);
    assert("creator"@.len() == 7);
    assert("url"@.len() == 3);
    assert("sensitive"@.len() == 9);
    assert("title"@.len() == 5);
    assert("content_type"@.len() == 12);
    assert("visibility"@.len() == 10);
    assert("spoiler_text"@.len() == 12);
    assert("reblog_id"@.len() == 9);
    assert("reply_id"@.len() == 8);
    assert("quoting_id"@.len() == 10);
    assert("created_at"@.len() == 10);
    assert("updated_at"@.len() == 10);
    assert("content"@[1] != "creator"@[1]);
    assert("sensitive"@[0] != "reblog_id"@[0]);
    assert("content_type"@[0] != "spoiler_text"@[0]);
    assert("visibility"@[0] != "quoting_id"@[0]);
    assert("visibility"@[0] != "created_at"@[0]);
    assert("visibility"@[0] != "updated_at"@[0]);
    assert("quoting_id"@[0] != "created_at"@[0]);
    assert("quoting_id"@[0] != "updated_at"@[0]);
    assert("created_at"@[0] != "updated_at"@[0]);
}

/// The base members a note always carries.
spec fn note_base(v: NoteV) -> Seq<FieldV> {
    seq![
        ("content"@, ValV::S(v.content)),
        ("creator"@, ValV::S(v.creator)),
        ("url"@, ValV::S(v.url)),
        ("sensitive"@, ValV::B(v.sensitive)),
    ]
}

/// A note's wire member keys are pairwise distinct.
pub proof fn lemma_note_fields_distinct(v: NoteV)
    ensures
        distinct_keys(note_fieldsv(v)),
{
    reveal_strlit("content");
    reveal_strlit("creator");
    reveal_strlit("url");
    reveal_strlit("sensitive");
    reveal_strlit("title");
    reveal_strlit("content_type");
    reveal_strlit("visibility");
    reveal_strlit("spoiler_text");
    reveal_strlit("reblog_id");
    reveal_strlit("reply_id");
    reveal_strlit("quoting_id");
    reveal_strlit("created_at");
    reveal_strlit("updated_at");
    lemma_keys_differ();
    let b4 = note_base(v);
    assert(b4[0].0 == "content"@);
    assert(b4[1].0 == "creator"@);
    assert(b4[2].0 == "url"@);
    assert(b4[3].0 == "sensitive"@);
    assert(distinct_keys(b4));
    let ks0 = set!["content"@, "creator"@, "url"@, "sensitive"@];
    assert(forall|i: int| 0 <= i < b4.len() ==> ks0.contains((#[trigger] b4[i]).0));
    let p1 = b4 + opt_sfield("title"@, v.title);
    lemma_distinct_step(b4, ks0, "title"@, v.title);
    let ks1 = ks0.insert("title"@);
    let p2 = p1 + opt_sfield("content_type"@, v.content_type);
    lemma_distinct_step(p1, ks1, "content_type"@, v.content_type);
    let ks2 = ks1.insert("content_type"@);
    let p3 = p2 + opt_sfield("visibility"@, v.visibility);
    lemma_distinct_step(p2, ks2, "visibility"@, v.visibility);
    let ks3 = ks2.insert("visibility"@);
    let p4 = p3 + opt_sfield("spoiler_text"@, v.spoiler_text);
    lemma_distinct_step(p3, ks3, "spoiler_text"@, v.spoiler_text);
    let ks4 = ks3.insert("spoiler_text"@);
    let p5 = p4 + opt_sfield("reblog_id"@, v.reblog_id);
    lemma_distinct_step(p4, ks4, "reblog_id"@, v.reblog_id);
    let ks5 = ks4.insert("reblog_id"@);
    let p6 = p5 + opt_sfield("reply_id"@, v.reply_id);
    lemma_distinct_step(p5, ks5, "reply_id"@, v.reply_id);
    let ks6 = ks5.insert("reply_id"@);
    let p7 = p6 + opt_sfield("quoting_id"@, v.quoting_id);
    lemma_distinct_step(p6, ks6, "quoting_id"@, v.quoting_id);
    let ks7 = ks6.insert("quoting_id"@);
    let p8 = p7 + opt_sfield("created_at"@, v.created_at);
    lemma_distinct_step(p7, ks7, "created_at"@, v.created_at);
    let ks8 = ks7.insert("created_at"@);
    let p9 = p8 + opt_sfield("updated_at"@, v.updated_at);
    lemma_distinct_step(p8, ks8, "updated_at"@, v.updated_at);
    assert(note_fieldsv(v) == p9);
}

/// What each key maps to among a note's wire members.
pub proof fn lemma_note_lookup(v: NoteV)
    ensures
        lookup(note_fieldsv(v), "content"@) == Some(ValV::S(v.content)),
        lookup(note_fieldsv(v), "creator"@) == Some(ValV::S(v.creator)),
        lookup(note_fieldsv(v), "url"@) == Some(ValV::S(v.url)),
        lookup(note_fieldsv(v), "sensitive"@) == Some(ValV::B(v.sensitive)),
        lookup(note_fieldsv(v), "title"@) == match v.title {
            Some(s) => Some(ValV::S(s)),
            None => None::<ValV>,
        },
        lookup(note_fieldsv(v), "content_type"@) == match v.content_type {
            Some(s) => Some(ValV::S(s)),
            None => None::<ValV>,
        },
        lookup(note_fieldsv(v), "visibility"@) == match v.visibility {
            Some(s) => Some(ValV::S(s)),
            None => None::<ValV>,
        },
        lookup(note_fieldsv(v), "spoiler_text"@) == match v.spoiler_text {
            Some(s) => Some(ValV::S(s)),
            None => None::<ValV>,
        },
        lookup(note_fieldsv(v), "reblog_id"@) == match v.reblog_id {
            Some(s) => Some(ValV::S(s)),
            None => None::<ValV>,
        },
        lookup(note_fieldsv(v), "reply_id"@) == match v.reply_id {
            Some(s) => Some(ValV::S(s)),
            None => None::<ValV>,
        },
        lookup(note_fieldsv(v), "quoting_id"@) == match v.quoting_id {
            Some(s) => Some(ValV::S(s)),
            None => None::<ValV>,
        },
        lookup(note_fieldsv(v), "created_at"@) == match v.created_at {
            Some(s) => Some(ValV::S(s)),
            None => None::<ValV>,
        },
        lookup(note_fieldsv(v), "updated_at"@) == match v.updated_at {
            Some(s) => Some(ValV::S(s)),
            None => None::<ValV>,
        },
{
    lemma_keys_differ();
    lemma_note_key(v, "content"@, Some(ValV::S(v.content)));
    lemma_note_key(v, "creator"@, Some(ValV::S(v.creator)));
    lemma_note_key(v, "url"@, Some(ValV::S(v.url)));
    lemma_note_key(v, "sensitive"@, Some(ValV::B(v.sensitive)));
    lemma_note_key(v, "title"@, match v.title {
        Some(s) => Some(ValV::S(s)),
        None => None::<ValV>,
    });
    lemma_note_key(v, "content_type"@, match v.content_type {
        Some(s) => Some(ValV::S(s)),
        None => None::<ValV>,
    });
    lemma_note_key(v, "visibility"@, match v.visibility {
        Some(s) => Some(ValV::S(s)),
        None => None::<ValV>,
    });
    lemma_note_key(v, "spoiler_text"@, match v.spoiler_text {
        Some(s) => Some(ValV::S(s)),
        None => None::<ValV>,
    });
    lemma_note_key(v, "reblog_id"@, match v.reblog_id {
        Some(s) => Some(ValV::S(s)),
        None => None::<ValV>,
    });
    lemma_note_key(v, "reply_id"@, match v.reply_id {
        Some(s) => Some(ValV::S(s)),
        None => None::<ValV>,
    });
    lemma_note_key(v, "quoting_id"@, match v.quoting_id {
        Some(s) => Some(ValV::S(s)),
        None => None::<ValV>,
    });
    lemma_note_key(v, "created_at"@, match v.created_at {
        Some(s) => Some(ValV::S(s)),
        None => None::<ValV>,
    });
    lemma_note_key(v, "updated_at"@, match v.updated_at {
        Some(s) => Some(ValV::S(s)),
        None => None::<ValV>,
    });
}

/// The lookup result for one key of a note's wire members.
proof fn lemma_note_key(v: NoteV, k: Seq<char>, expect: Option<ValV>)
    requires
        expected_note_binding(v, k, expect),
    ensures
        lookup(note_fieldsv(v), k) == expect,
{
    lemma_keys_differ();
    reveal_strlit("content");
    reveal_strlit("creator");
    reveal_strlit("url");
    reveal_strlit("sensitive");
    reveal_strlit("title");
    reveal_strlit("content_type");
    reveal_strlit("visibility");
    reveal_strlit("spoiler_text");
    reveal_strlit("reblog_id");
    reveal_strlit("reply_id");
    reveal_strlit("quoting_id");
    reveal_strlit("created_at");
    reveal_strlit("updated_at");
    let b4 = note_base(v);
    let b3 = seq![
        ("creator"@, ValV::S(v.creator)),
        ("url"@, ValV::S(v.url)),
        ("sensitive"@, ValV::B(v.sensitive)),
    ];
    let b2 = seq![("url"@, ValV::S(v.url)), ("sensitive"@, ValV::B(v.sensitive))];
    let b1 = seq![("sensitive"@, ValV::B(v.sensitive))];
    assert(b4.drop_first() =~= b3);
    assert(b3.drop_first() =~= b2);
    assert(b2.drop_first() =~= b1);
    assert(b1.drop_first() =~= Seq::<FieldV>::empty());
    assert(lookup(Seq::<FieldV>::empty(), k) is None);
    assert(lookup(b1, k) == if k == "sensitive"@ {
        Some(ValV::B(v.sensitive))
    } else {
        None::<ValV>
    });
    assert(lookup(b2, k) == if k == "url"@ {
        Some(ValV::S(v.url))
    } else {
        lookup(b1, k)
    });
    assert(lookup(b3, k) == if k == "creator"@ {
        Some(ValV::S(v.creator))
    } else {
        lookup(b2, k)
    });
    assert(lookup(b4, k) == if k == "content"@ {
        Some(ValV::S(v.content))
    } else {
        lookup(b3, k)
    });
    if k == "content"@ || k == "creator"@ || k == "url"@ || k == "sensitive"@ {
        assert(lookup(b4, k) == expect);
    } else {
        assert(lookup(b4, k) is None);
    }
    let p1 = b4 + opt_sfield("title"@, v.title);
    if k == "title"@ {
        lemma_lookup_at_opt(b4, k, v.title);
    } else {
        lemma_lookup_skip_opt(b4, "title"@, v.title, k);
    }
    let p2 = p1 + opt_sfield("content_type"@, v.content_type);
    if k == "content_type"@ {
        lemma_lookup_at_opt(p1, k, v.content_type);
    } else {
        lemma_lookup_skip_opt(p1, "content_type"@, v.content_type, k);
    }
    let p3 = p2 + opt_sfield("visibility"@, v.visibility);
    if k == "visibility"@ {
        lemma_lookup_at_opt(p2, k, v.visibility);
    } else {
        lemma_lookup_skip_opt(p2, "visibility"@, v.visibility, k);
    }
    let p4 = p3 + opt_sfield("spoiler_text"@, v.spoiler_text);
    if k == "spoiler_text"@ {
        lemma_lookup_at_opt(p3, k, v.spoiler_text);
    } else {
        lemma_lookup_skip_opt(p3, "spoiler_text"@, v.spoiler_text, k);
    }
    let p5 = p4 + opt_sfield("reblog_id"@, v.reblog_id);
    if k == "reblog_id"@ {
        lemma_lookup_at_opt(p4, k, v.reblog_id);
    } else {
        lemma_lookup_skip_opt(p4, "reblog_id"@, v.reblog_id, k);
    }
    let p6 = p5 + opt_sfield("reply_id"@, v.reply_id);
    if k == "reply_id"@ {
        lemma_lookup_at_opt(p5, k, v.reply_id);
    } else {
        lemma_lookup_skip_opt(p5, "reply_id"@, v.reply_id, k);
    }
    let p7 = p6 + opt_sfield("quoting_id"@, v.quoting_id);
    if k == "quoting_id"@ {
        lemma_lookup_at_opt(p6, k, v.quoting_id);
    } else {
        lemma_lookup_skip_opt(p6, "quoting_id"@, v.quoting_id, k);
    }
    let p8 = p7 + opt_sfield("created_at"@, v.created_at);
    if k == "created_at"@ {
        lemma_lookup_at_opt(p7, k, v.created_at);
    } else {
        lemma_lookup_skip_opt(p7, "created_at"@, v.created_at, k);
    }
    let p9 = p8 + opt_sfield("updated_at"@, v.updated_at);
    if k == "updated_at"@ {
        lemma_lookup_at_opt(p8, k, v.updated_at);
    } else {
        lemma_lookup_skip_opt(p8, "updated_at"@, v.updated_at, k);
    }
    assert(note_fieldsv(v) == p9);
}

/// Determinism: the wire text of a note is a function of its logical value
/// alone, so encoding the same note twice yields byte-identical output.
pub proof fn lemma_encode_note_deterministic(a: Note, b: Note)
    requires
        a@ == b@,
    ensures
        spec_note_wire(a@) == spec_note_wire(b@),
{
}

/// Round trip: decoding a note's canonical wire text succeeds and yields
/// exactly the note that was encoded.
pub proof fn lemma_note_round_trip(v: NoteV)
    ensures
        sp_object(spec_note_wire(v)) == Some(canon(note_fieldsv(v))),
        note_wf_fields(canon(note_fieldsv(v))),
        note_of_fields(canon(note_fieldsv(v))) == v,
{
    let nf = note_fieldsv(v);
    lemma_parse_object(canon(nf));
    lemma_note_fields_distinct(v);
    lemma_note_lookup(v);
    lemma_lookup_canon(nf, "content"@);
    lemma_lookup_canon(nf, "creator"@);
    lemma_lookup_canon(nf, "url"@);
    lemma_lookup_canon(nf, "sensitive"@);
    lemma_lookup_canon(nf, "title"@);
    lemma_lookup_canon(nf, "content_type"@);
    lemma_lookup_canon(nf, "visibility"@);
    lemma_lookup_canon(nf, "spoiler_text"@);
    lemma_lookup_canon(nf, "reblog_id"@);
    lemma_lookup_canon(nf, "reply_id"@);
    lemma_lookup_canon(nf, "quoting_id"@);
    lemma_lookup_canon(nf, "created_at"@);
    lemma_lookup_canon(nf, "updated_at"@);
    assert(note_of_fields(canon(nf)) =~= v);
}

/// The five user member keys are pairwise distinct strings.
proof fn lemma_user_keys_differ()
    ensures
        "id"@ != "username"@,
        "id"@ != "url"@,
        "id"@ != "display_name"@,
        "id"@ != "created_at"@,
        "username"@ != "url"@,
        "username"@ != "display_name"@,
        "username"@ != "created_at"@,
        "url"@ != "display_name"@,
        "url"@ != "created_at"@,
        "display_name"@ != "created_at"@,
{
    reveal_strlit("id");
    reveal_strlit("username");
    reveal_strlit("url");
    reveal_strlit("display_name");
    reveal_strlit("created_at");
    assert("id"@.len() == 2);
    assert("username"@.len() == 8);
    assert("url"@.len() == 3);
    assert("display_name"@.len() == 12);
    assert("created_at"@.len() == 10);
}

/// The base members a user profile always carries.
spec fn user_base(v: UserV) -> Seq<FieldV> {
    seq![
        ("id"@, ValV::S(v.id)),
        ("username"@, ValV::S(v.username)),
        ("url"@, ValV::S(v.url)),
    ]
}

/// A user profile's wire member keys are pairwise distinct.
pub proof fn lemma_user_fields_distinct(v: UserV)
    ensures
        distinct_keys(user_fieldsv(v)),
{
    lemma_user_keys_differ();
    let b3 = user_base(v);
    assert(b3[0].0 == "id"@);
    assert(b3[1].0 == "username"@);
    assert(b3[2].0 == "url"@);
    assert(distinct_keys(b3));
    let ks0 = set!["id"@, "username"@, "url"@];
    assert(forall|i: int| 0 <= i < b3.len() ==> ks0.contains((#[trigger] b3[i]).0));
    let p1 = b3 + opt_sfield("display_name"@, v.display_name);
    lemma_distinct_step(b3, ks0, "display_name"@, v.display_name);
    let ks1 = ks0.insert("display_name"@);
    lemma_distinct_step(p1, ks1, "created_at"@, v.created_at);
    assert(user_fieldsv(v) == p1 + opt_sfield("created_at"@, v.created_at));
}

/// What each key maps to among a user profile's wire members.
pub proof fn lemma_user_lookup(v: UserV)
    ensures
        lookup(user_fieldsv(v), "id"@) == Some(ValV::S(v.id)),
        lookup(user_fieldsv(v), "username"@) == Some(ValV::S(v.username)),
        lookup(user_fieldsv(v), "url"@) == Some(ValV::S(v.url)),
        lookup(user_fieldsv(v), "display_name"@) == match v.display_name {
            Some(s) => Some(ValV::S(s)),
            None => None::<ValV>,
        },
        lookup(user_fieldsv(v), "created_at"@) == match v.created_at {
            Some(s) => Some(ValV::S(s)),
            None => None::<ValV>,
        },
{
    lemma_user_keys_differ();
    lemma_user_key(v, "id"@, Some(ValV::S(v.id)));
    lemma_user_key(v, "username"@, Some(ValV::S(v.username)));
    lemma_user_key(v, "url"@, Some(ValV::S(v.url)));
    lemma_user_key(v, "display_name"@, match v.display_name {
        Some(s) => Some(ValV::S(s)),
        None => None::<ValV>,
    });
    lemma_user_key(v, "created_at"@, match v.created_at {
        Some(s) => Some(ValV::S(s)),
        None => None::<ValV>,
    });
}

/// Which binding a key is expected to have among a user's wire members.
spec fn expected_user_binding(v: UserV, k: Seq<char>, expect: Option<ValV>) -> bool {
    if k == "id"@ {
        expect == Some(ValV::S(v.id))
    } else if k == "username"@ {
        expect == Some(ValV::S(v.username))
    } else if k == "url"@ {
        expect == Some(ValV::S(v.url))
    } else if k == "display_name"@ {
        expect == match v.display_name {
            Some(s) => Some(ValV::S(s)),
            None => None::<ValV>,
        }
    } else if k == "created_at"@ {
        expect == match v.created_at {
            Some(s) => Some(ValV::S(s)),
            None => None::<ValV>,
        }
    } else {
        expect is None
    }
}

/// The lookup result for one key of a user profile's wire members.
proof fn lemma_user_key(v: UserV, k: Seq<char>, expect: Option<ValV>)
    requires
        expected_user_binding(v, k, expect),
    ensures
        lookup(user_fieldsv(v), k) == expect,
{
    lemma_user_keys_differ();
    let b3 = user_base(v);
    let b2 = seq![("username"@, ValV::S(v.username)), ("url"@, ValV::S(v.url))];
    let b1 = seq![("url"@, ValV::S(v.url))];
    assert(b3.drop_first() =~= b2);
    assert(b2.drop_first() =~= b1);
    assert(b1.drop_first() =~= Seq::<FieldV>::empty());
    assert(lookup(Seq::<FieldV>::empty(), k) is None);
    assert(lookup(b1, k) == if k == "url"@ {
        Some(ValV::S(v.url))
    } else {
        None::<ValV>
    });
    assert(lookup(b2, k) == if k == "username"@ {
        Some(ValV::S(v.username))
    } else {
        lookup(b1, k)
    });
    assert(lookup(b3, k) == if k == "id"@ {
        Some(ValV::S(v.id))
    } else {
        lookup(b2, k)
    });
    let p1 = b3 + opt_sfield("display_name"@, v.display_name);
    if k == "display_name"@ {
        lemma_lookup_at_opt(b3, k, v.display_name);
    } else {
        lemma_lookup_skip_opt(b3, "display_name"@, v.display_name, k);
    }
    if k == "created_at"@ {
        lemma_lookup_at_opt(p1, k, v.created_at);
    } else {
        lemma_lookup_skip_opt(p1, "created_at"@, v.created_at, k);
    }
    assert(user_fieldsv(v) == p1 + opt_sfield("created_at"@, v.created_at));
}

/// Determinism for user profiles.
pub proof fn lemma_encode_user_deterministic(a: User, b: User)
    requires
        a@ == b@,
    ensures
        spec_user_wire(a@) == spec_user_wire(b@),
{
}

/// Round trip for user profiles.
pub proof fn lemma_user_round_trip(v: UserV)
    ensures
        sp_object(spec_user_wire(v)) == Some(canon(user_fieldsv(v))),
        user_wf_fields(canon(user_fieldsv(v))),
        user_of_fields(canon(user_fieldsv(v))) == v,
{
    let uf = user_fieldsv(v);
    lemma_parse_object(canon(uf));
    lemma_user_fields_distinct(v);
    lemma_user_lookup(v);
    lemma_lookup_canon(uf, "id"@);
    lemma_lookup_canon(uf, "username"@);
    lemma_lookup_canon(uf, "url"@);
    lemma_lookup_canon(uf, "display_name"@);
    lemma_lookup_canon(uf, "created_at"@);
    assert(user_of_fields(canon(uf)) =~= v);
}

/// An outbox's wire member keys are pairwise distinct, and each key maps to
/// the member it names.
pub proof fn lemma_outbox_lookup(v: OutboxV)
    ensures
        distinct_keys(outbox_fieldsv(v)),
        lookup(outbox_fieldsv(v), "author"@) == Some(ValV::S(v.author)),
        lookup(outbox_fieldsv(v), "items"@) == Some(ValV::A(v.items)),
{
    reveal_strlit("author");
    reveal_strlit("items");
    assert("author"@.len() == 6);
    assert("items"@.len() == 5);
    let ob = outbox_fieldsv(v);
    assert(ob[0].0 == "author"@);
    assert(ob[1].0 == "items"@);
    assert(ob.drop_first() =~= seq![("items"@, ValV::A(v.items))]);
    assert(seq![("items"@, ValV::A(v.items))][0].0 == "items"@);
    assert(lookup(seq![("items"@, ValV::A(v.items))], "items"@) == Some(ValV::A(v.items)));
    assert(lookup(ob, "items"@) == Some(ValV::A(v.items)));
}

/// Determinism for outboxes.
pub proof fn lemma_encode_outbox_deterministic(a: Outbox, b: Outbox)
    requires
        a@ == b@,
    ensures
        spec_outbox_wire(a@) == spec_outbox_wire(b@),
{
}

/// Round trip for outboxes; item order on the wire is the given order.
pub proof fn lemma_outbox_round_trip(v: OutboxV)
    ensures
        sp_object(spec_outbox_wire(v)) == Some(canon(outbox_fieldsv(v))),
        outbox_wf_fields(canon(outbox_fieldsv(v))),
        outbox_of_fields(canon(outbox_fieldsv(v))) == v,
{
    let of = outbox_fieldsv(v);
    lemma_parse_object(canon(of));
    lemma_outbox_lookup(v);
    lemma_lookup_canon(of, "author"@);
    lemma_lookup_canon(of, "items"@);
    assert(outbox_of_fields(canon(of)) =~= v);
}

/// Round trip for envelope kinds: a kind's wire name decodes back to it.
pub proof fn lemma_kind_round_trip(t: LysandType)
    ensures
        skip_ws(spec_type_wire(t)) == spec_type_wire(t),
        sp_string(spec_type_wire(t)) == Some((kind_name(t), Seq::<char>::empty())),
        skip_ws(Seq::<char>::empty()).len() == 0,
        kind_of_name(kind_name(t)) == Some(t),
{
    assert(spec_type_wire(t)[0] == '"');
    lemma_skip_ws_id(spec_type_wire(t));
    lemma_parse_string(kind_name(t), Seq::<char>::empty());
    assert(str_lit(kind_name(t)) + Seq::<char>::empty() =~= str_lit(kind_name(t)));
    reveal_strlit("Note");
    reveal_strlit("User");
    reveal_strlit("Follow");
    reveal_strlit("Outbox");
    reveal_strlit("Delete");
    assert("Note"@.len() == 4);
    assert("User"@.len() == 4);
    assert("Follow"@.len() == 6);
    assert("Outbox"@.len() == 6);
    assert("Delete"@.len() == 6);
    assert("Note"@[0] != "User"@[0]);
    assert("Follow"@[0] != "Outbox"@[0]);
    assert("Follow"@[0] != "Delete"@[0]);
    assert("Outbox"@[0] != "Delete"@[0]);
}

/// Which binding a key is expected to have among a note's wire members.
spec fn expected_note_binding(v: NoteV, k: Seq<char>, expect: Option<ValV>) -> bool {
    if k == "content"@ {
        expect == Some(ValV::S(v.content))
    } else if k == "creator"@ {
        expect == Some(ValV::S(v.creator))
    } else if k == "url"@ {
        expect == Some(ValV::S(v.url))
    } else if k == "sensitive"@ {
        expect == Some(ValV::B(v.sensitive))
    } else if k == "title"@ {
        expect == match v.title {
            Some(s) => Some(ValV::S(s)),
            None => None::<ValV>,
        }
    } else if k == "content_type"@ {
        expect == match v.content_type {
            Some(s) => Some(ValV::S(s)),
            None => None::<ValV>,
        }
    } else if k == "visibility"@ {
        expect == match v.visibility {
            Some(s) => Some(ValV::S(s)),
            None => None::<ValV>,
        }
    } else if k == "spoiler_text"@ {
        expect == match v.spoiler_text {
            Some(s) => Some(ValV::S(s)),
            None => None::<ValV>,
        }
    } else if k == "reblog_id"@ {
        expect == match v.reblog_id {
            Some(s) => Some(ValV::S(s)),
            None => None::<ValV>,
        }
    } else if k == "reply_id"@ {
        expect == match v.reply_id {
            Some(s) => Some(ValV::S(s)),
            None => None::<ValV>,
        }
    } else if k == "quoting_id"@ {
        expect == match v.quoting_id {
            Some(s) => Some(ValV::S(s)),
            None => None::<ValV>,
        }
    } else if k == "created_at"@ {
        expect == match v.created_at {
            Some(s) => Some(ValV::S(s)),
            None => None::<ValV>,
        }
    } else if k == "updated_at"@ {
        expect == match v.updated_at {
            Some(s) => Some(ValV::S(s)),
            None => None::<ValV>,
        }
    } else {
        expect is None
    }
}

} // verus!
