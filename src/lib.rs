use vstd::prelude::*;

pub mod actor;
pub mod json;

use crate::json::{
    append_members, avoids, canon, canonical, lemma_canon_avoids, lemma_canon_of_sorted,
    lemma_canon_sorted, lemma_upsert_sorted, sorted, field_value, get_member, get_member_as, lemma_lookup_avoided, lemma_lookup_first,
    lemma_avoids_concat, lemma_avoids_within, lemma_lookup_skip, lemma_object_view, lemma_omit_avoided, lemma_omit_avoids,
    lemma_omit_concat, lookup, members_view, omit, omit_names, opt_view, same_text,
    upsert, upsert_member, views_of, FromJson, Json, JsonView, ToJson,
};

verus! {

/// A member of fixed name that the typed part of an entity holds.
#[derive(Clone, Copy, Debug, PartialEq, Eq, Structural)]
pub enum Field {
    Context,
    Type,
    Id,
    Href,
    Inbox,
    Outbox,
}

/// Why a JSON value could not be read as an entity.
#[derive(Clone, Copy, Debug, PartialEq, Eq, Structural)]
pub enum Error {
    /// The value is not a JSON object.
    NotAnObject,
    /// A required member is absent.
    Missing(Field),
    /// A member is present but its value does not have the declared shape.
    Invalid(Field),
}

/// The `type` of an object: a term of the ActivityStreams vocabulary.
#[derive(Clone, Copy, Debug, PartialEq, Eq, Structural)]
pub enum ObjectType {
    // Activity types
    Activity,
    IntransitiveActivity,
    Accept,
    Add,
    Announce,
    Arrive,
    Block,
    Create,
    Delete,
    Dislike,
    Flag,
    Follow,
    Ignore,
    Invite,
    Join,
    Leave,
    Like,
    Listen,
    Move,
    Offer,
    Question,
    Reject,
    Read,
    Remove,
    TentativeAccept,
    TentativeReject,
    Travel,
    Undo,
    Update,
    View,

    // Actor types
    Actor,
    Application,
    Group,
    Organisation,
    Person,
    Service,

    // Object types
    Object,
    Article,
    Audio,
    Document,
    Event,
    Image,
    Note,
    Page,
    Place,
    Profile,
    Relationship,
    Tombstone,
    Video,

    // Collection types
    Collection,
    CollectionPage,
    OrderedCollection,
    OrderedCollectionPage,
}

impl ObjectType {
    /// The name of the variant on the wire.
    pub open spec fn spec_name(self) -> Seq<char> {
        match self {
            ObjectType::Activity => "Activity"@,
            ObjectType::IntransitiveActivity => "IntransitiveActivity"@,
            ObjectType::Accept => "Accept"@,
            ObjectType::Add => "Add"@,
            ObjectType::Announce => "Announce"@,
            ObjectType::Arrive => "Arrive"@,
            ObjectType::Block => "Block"@,
            ObjectType::Create => "Create"@,
            ObjectType::Delete => "Delete"@,
            ObjectType::Dislike => "Dislike"@,
            ObjectType::Flag => "Flag"@,
            ObjectType::Follow => "Follow"@,
            ObjectType::Ignore => "Ignore"@,
            ObjectType::Invite => "Invite"@,
            ObjectType::Join => "Join"@,
            ObjectType::Leave => "Leave"@,
            ObjectType::Like => "Like"@,
            ObjectType::Listen => "Listen"@,
            ObjectType::Move => "Move"@,
            ObjectType::Offer => "Offer"@,
            ObjectType::Question => "Question"@,
            ObjectType::Reject => "Reject"@,
            ObjectType::Read => "Read"@,
            ObjectType::Remove => "Remove"@,
            ObjectType::TentativeAccept => "TentativeAccept"@,
            ObjectType::TentativeReject => "TentativeReject"@,
            ObjectType::Travel => "Travel"@,
            ObjectType::Undo => "Undo"@,
            ObjectType::Update => "Update"@,
            ObjectType::View => "View"@,
            ObjectType::Actor => "Actor"@,
            ObjectType::Application => "Application"@,
            ObjectType::Group => "Group"@,
            ObjectType::Organisation => "Organisation"@,
            ObjectType::Person => "Person"@,
            ObjectType::Service => "Service"@,
            ObjectType::Object => "Object"@,
            ObjectType::Article => "Article"@,
            ObjectType::Audio => "Audio"@,
            ObjectType::Document => "Document"@,
            ObjectType::Event => "Event"@,
            ObjectType::Image => "Image"@,
            ObjectType::Note => "Note"@,
            ObjectType::Page => "Page"@,
            ObjectType::Place => "Place"@,
            ObjectType::Profile => "Profile"@,
            ObjectType::Relationship => "Relationship"@,
            ObjectType::Tombstone => "Tombstone"@,
            ObjectType::Video => "Video"@,
            ObjectType::Collection => "Collection"@,
            ObjectType::CollectionPage => "CollectionPage"@,
            ObjectType::OrderedCollection => "OrderedCollection"@,
            ObjectType::OrderedCollectionPage => "OrderedCollectionPage"@,
        }
    }

    /// The variant whose wire name is `s`, if any.
    pub open spec fn named(s: Seq<char>) -> Option<ObjectType> {
        if exists|t: ObjectType| t.spec_name() == s {
            Some(choose|t: ObjectType| t.spec_name() == s)
        } else {
            None
        }
    }

    /// Distinct variants have distinct wire names.
    pub proof fn lemma_name_injective(self, other: Self)
        ensures
            self.spec_name() == other.spec_name() ==> self == other,
    {
        if self.spec_name() == other.spec_name() {
            reveal_strlit("Activity");
            reveal_strlit("IntransitiveActivity");
            reveal_strlit("Accept");
            reveal_strlit("Add");
            reveal_strlit("Announce");
            reveal_strlit("Arrive");
            reveal_strlit("Block");
            reveal_strlit("Create");
            reveal_strlit("Delete");
            reveal_strlit("Dislike");
            reveal_strlit("Flag");
            reveal_strlit("Follow");
            reveal_strlit("Ignore");
            reveal_strlit("Invite");
            reveal_strlit("Join");
            reveal_strlit("Leave");
            reveal_strlit("Like");
            reveal_strlit("Listen");
            reveal_strlit("Move");
            reveal_strlit("Offer");
            reveal_strlit("Question");
            reveal_strlit("Reject");
            reveal_strlit("Read");
            reveal_strlit("Remove");
            reveal_strlit("TentativeAccept");
            reveal_strlit("TentativeReject");
            reveal_strlit("Travel");
            reveal_strlit("Undo");
            reveal_strlit("Update");
            reveal_strlit("View");
            reveal_strlit("Actor");
            reveal_strlit("Application");
            reveal_strlit("Group");
            reveal_strlit("Organisation");
            reveal_strlit("Person");
            reveal_strlit("Service");
            reveal_strlit("Object");
            reveal_strlit("Article");
            reveal_strlit("Audio");
            reveal_strlit("Document");
            reveal_strlit("Event");
            reveal_strlit("Image");
            reveal_strlit("Note");
            reveal_strlit("Page");
            reveal_strlit("Place");
            reveal_strlit("Profile");
            reveal_strlit("Relationship");
            reveal_strlit("Tombstone");
            reveal_strlit("Video");
            reveal_strlit("Collection");
            reveal_strlit("CollectionPage");
            reveal_strlit("OrderedCollection");
            reveal_strlit("OrderedCollectionPage");
            let s = self.spec_name();
            let o = other.spec_name();
            assert(s.len() == o.len());
            assert(s[0] == o[0]);
            assert(s[1] == o[1]);
            assert(s[2] == o[2]);
            assert(s[3] == o[3]);
            assert(s[4] == o[4]);
            assert(s[5] == o[5]);
            assert(s[6] == o[6]);
            assert(s[7] == o[7]);
            assert(s[8] == o[8]);
            assert(s[9] == o[9]);
        }
    }

    /// The wire name of the variant.
    pub fn name(&self) -> (r: &'static str)
        ensures
            r@ == self.spec_name(),
    {
        match self {
            ObjectType::Activity => "Activity",
            ObjectType::IntransitiveActivity => "IntransitiveActivity",
            ObjectType::Accept => "Accept",
            ObjectType::Add => "Add",
            ObjectType::Announce => "Announce",
            ObjectType::Arrive => "Arrive",
            ObjectType::Block => "Block",
            ObjectType::Create => "Create",
            ObjectType::Delete => "Delete",
            ObjectType::Dislike => "Dislike",
            ObjectType::Flag => "Flag",
            ObjectType::Follow => "Follow",
            ObjectType::Ignore => "Ignore",
            ObjectType::Invite => "Invite",
            ObjectType::Join => "Join",
            ObjectType::Leave => "Leave",
            ObjectType::Like => "Like",
            ObjectType::Listen => "Listen",
            ObjectType::Move => "Move",
            ObjectType::Offer => "Offer",
            ObjectType::Question => "Question",
            ObjectType::Reject => "Reject",
            ObjectType::Read => "Read",
            ObjectType::Remove => "Remove",
            ObjectType::TentativeAccept => "TentativeAccept",
            ObjectType::TentativeReject => "TentativeReject",
            ObjectType::Travel => "Travel",
            ObjectType::Undo => "Undo",
            ObjectType::Update => "Update",
            ObjectType::View => "View",
            ObjectType::Actor => "Actor",
            ObjectType::Application => "Application",
            ObjectType::Group => "Group",
            ObjectType::Organisation => "Organisation",
            ObjectType::Person => "Person",
            ObjectType::Service => "Service",
            ObjectType::Object => "Object",
            ObjectType::Article => "Article",
            ObjectType::Audio => "Audio",
            ObjectType::Document => "Document",
            ObjectType::Event => "Event",
            ObjectType::Image => "Image",
            ObjectType::Note => "Note",
            ObjectType::Page => "Page",
            ObjectType::Place => "Place",
            ObjectType::Profile => "Profile",
            ObjectType::Relationship => "Relationship",
            ObjectType::Tombstone => "Tombstone",
            ObjectType::Video => "Video",
            ObjectType::Collection => "Collection",
            ObjectType::CollectionPage => "CollectionPage",
            ObjectType::OrderedCollection => "OrderedCollection",
            ObjectType::OrderedCollectionPage => "OrderedCollectionPage",
        }
    }

    /// The variant whose wire name is `s`, if any.
    pub fn from_name(s: &String) -> (r: Option<ObjectType>)
        ensures
            r == ObjectType::named(s@),
    {
        if same_text(s, "Activity") {
            proof {
                ObjectType::Activity.lemma_named();
            }
            Some(ObjectType::Activity)
        } else if same_text(s, "IntransitiveActivity") {
            proof {
                ObjectType::IntransitiveActivity.lemma_named();
            }
            Some(ObjectType::IntransitiveActivity)
        } else if same_text(s, "Accept") {
            proof {
                ObjectType::Accept.lemma_named();
            }
            Some(ObjectType::Accept)
        } else if same_text(s, "Add") {
            proof {
                ObjectType::Add.lemma_named();
            }
            Some(ObjectType::Add)
        } else if same_text(s, "Announce") {
            proof {
                ObjectType::Announce.lemma_named();
            }
            Some(ObjectType::Announce)
        } else if same_text(s, "Arrive") {
            proof {
                ObjectType::Arrive.lemma_named();
            }
            Some(ObjectType::Arrive)
        } else if same_text(s, "Block") {
            proof {
                ObjectType::Block.lemma_named();
            }
            Some(ObjectType::Block)
        } else if same_text(s, "Create") {
            proof {
                ObjectType::Create.lemma_named();
            }
            Some(ObjectType::Create)
        } else if same_text(s, "Delete") {
            proof {
                ObjectType::Delete.lemma_named();
            }
            Some(ObjectType::Delete)
        } else if same_text(s, "Dislike") {
            proof {
                ObjectType::Dislike.lemma_named();
            }
            Some(ObjectType::Dislike)
        } else if same_text(s, "Flag") {
            proof {
                ObjectType::Flag.lemma_named();
            }
            Some(ObjectType::Flag)
        } else if same_text(s, "Follow") {
            proof {
                ObjectType::Follow.lemma_named();
            }
            Some(ObjectType::Follow)
        } else if same_text(s, "Ignore") {
            proof {
                ObjectType::Ignore.lemma_named();
            }
            Some(ObjectType::Ignore)
        } else if same_text(s, "Invite") {
            proof {
                ObjectType::Invite.lemma_named();
            }
            Some(ObjectType::Invite)
        } else if same_text(s, "Join") {
            proof {
                ObjectType::Join.lemma_named();
            }
            Some(ObjectType::Join)
        } else if same_text(s, "Leave") {
            proof {
                ObjectType::Leave.lemma_named();
            }
            Some(ObjectType::Leave)
        } else if same_text(s, "Like") {
            proof {
                ObjectType::Like.lemma_named();
            }
            Some(ObjectType::Like)
        } else if same_text(s, "Listen") {
            proof {
                ObjectType::Listen.lemma_named();
            }
            Some(ObjectType::Listen)
        } else if same_text(s, "Move") {
            proof {
                ObjectType::Move.lemma_named();
            }
            Some(ObjectType::Move)
        } else if same_text(s, "Offer") {
            proof {
                ObjectType::Offer.lemma_named();
            }
            Some(ObjectType::Offer)
        } else if same_text(s, "Question") {
            proof {
                ObjectType::Question.lemma_named();
            }
            Some(ObjectType::Question)
        } else if same_text(s, "Reject") {
            proof {
                ObjectType::Reject.lemma_named();
            }
            Some(ObjectType::Reject)
        } else if same_text(s, "Read") {
            proof {
                ObjectType::Read.lemma_named();
            }
            Some(ObjectType::Read)
        } else if same_text(s, "Remove") {
            proof {
                ObjectType::Remove.lemma_named();
            }
            Some(ObjectType::Remove)
        } else if same_text(s, "TentativeAccept") {
            proof {
                ObjectType::TentativeAccept.lemma_named();
            }
            Some(ObjectType::TentativeAccept)
        } else if same_text(s, "TentativeReject") {
            proof {
                ObjectType::TentativeReject.lemma_named();
            }
            Some(ObjectType::TentativeReject)
        } else if same_text(s, "Travel") {
            proof {
                ObjectType::Travel.lemma_named();
            }
            Some(ObjectType::Travel)
        } else if same_text(s, "Undo") {
            proof {
                ObjectType::Undo.lemma_named();
            }
            Some(ObjectType::Undo)
        } else if same_text(s, "Update") {
            proof {
                ObjectType::Update.lemma_named();
            }
            Some(ObjectType::Update)
        } else if same_text(s, "View") {
            proof {
                ObjectType::View.lemma_named();
            }
            Some(ObjectType::View)
        } else if same_text(s, "Actor") {
            proof {
                ObjectType::Actor.lemma_named();
            }
            Some(ObjectType::Actor)
        } else if same_text(s, "Application") {
            proof {
                ObjectType::Application.lemma_named();
            }
            Some(ObjectType::Application)
        } else if same_text(s, "Group") {
            proof {
                ObjectType::Group.lemma_named();
            }
            Some(ObjectType::Group)
        } else if same_text(s, "Organisation") {
            proof {
                ObjectType::Organisation.lemma_named();
            }
            Some(ObjectType::Organisation)
        } else if same_text(s, "Person") {
            proof {
                ObjectType::Person.lemma_named();
            }
            Some(ObjectType::Person)
        } else if same_text(s, "Service") {
            proof {
                ObjectType::Service.lemma_named();
            }
            Some(ObjectType::Service)
        } else if same_text(s, "Object") {
            proof {
                ObjectType::Object.lemma_named();
            }
            Some(ObjectType::Object)
        } else if same_text(s, "Article") {
            proof {
                ObjectType::Article.lemma_named();
            }
            Some(ObjectType::Article)
        } else if same_text(s, "Audio") {
            proof {
                ObjectType::Audio.lemma_named();
            }
            Some(ObjectType::Audio)
        } else if same_text(s, "Document") {
            proof {
                ObjectType::Document.lemma_named();
            }
            Some(ObjectType::Document)
        } else if same_text(s, "Event") {
            proof {
                ObjectType::Event.lemma_named();
            }
            Some(ObjectType::Event)
        } else if same_text(s, "Image") {
            proof {
                ObjectType::Image.lemma_named();
            }
            Some(ObjectType::Image)
        } else if same_text(s, "Note") {
            proof {
                ObjectType::Note.lemma_named();
            }
            Some(ObjectType::Note)
        } else if same_text(s, "Page") {
            proof {
                ObjectType::Page.lemma_named();
            }
            Some(ObjectType::Page)
        } else if same_text(s, "Place") {
            proof {
                ObjectType::Place.lemma_named();
            }
            Some(ObjectType::Place)
        } else if same_text(s, "Profile") {
            proof {
                ObjectType::Profile.lemma_named();
            }
            Some(ObjectType::Profile)
        } else if same_text(s, "Relationship") {
            proof {
                ObjectType::Relationship.lemma_named();
            }
            Some(ObjectType::Relationship)
        } else if same_text(s, "Tombstone") {
            proof {
                ObjectType::Tombstone.lemma_named();
            }
            Some(ObjectType::Tombstone)
        } else if same_text(s, "Video") {
            proof {
                ObjectType::Video.lemma_named();
            }
            Some(ObjectType::Video)
        } else if same_text(s, "Collection") {
            proof {
                ObjectType::Collection.lemma_named();
            }
            Some(ObjectType::Collection)
        } else if same_text(s, "CollectionPage") {
            proof {
                ObjectType::CollectionPage.lemma_named();
            }
            Some(ObjectType::CollectionPage)
        } else if same_text(s, "OrderedCollection") {
            proof {
                ObjectType::OrderedCollection.lemma_named();
            }
            Some(ObjectType::OrderedCollection)
        } else if same_text(s, "OrderedCollectionPage") {
            proof {
                ObjectType::OrderedCollectionPage.lemma_named();
            }
            Some(ObjectType::OrderedCollectionPage)
        } else {
            None
        }
    }

    /// Parsing the wire name gives the variant back.
    pub proof fn lemma_named(self)
        ensures
            ObjectType::named(self.spec_name()) == Some(self),
    {
        let t = choose|t: ObjectType| t.spec_name() == self.spec_name();
        t.lemma_name_injective(self);
    }
}

impl View for ObjectType {
    type V = ObjectType;

    open spec fn view(&self) -> ObjectType {
        *self
    }
}

impl FromJson for ObjectType {
    /// A string that names a variant.
    open spec fn decode(j: JsonView) -> Option<ObjectType> {
        match j {
            JsonView::Str(s) => ObjectType::named(s),
            _ => None,
        }
    }

    fn from_json(j: &Json) -> (r: Option<ObjectType>) {
        match j {
            Json::Str(s) => ObjectType::from_name(s),
            _ => None,
        }
    }
}

impl ToJson for ObjectType {
    open spec fn encode(v: ObjectType) -> JsonView {
        JsonView::Str(v.spec_name())
    }

    fn to_json(&self) -> (r: Json) {
        Json::Str(self.name().to_string())
    }
}



/// The view of a result: the view of its value, or its error.
pub open spec fn res_view<T: View>(r: Result<T, Error>) -> Result<T::V, Error> {
    match r {
        Ok(x) => Ok(x@),
        Err(e) => Err(e),
    }
}

/// The optional `id` that a member's value gives: absent and `null` give
/// none, a string gives itself.
pub open spec fn id_from(v: Option<JsonView>) -> Result<Option<Seq<char>>, Error> {
    match v {
        None => Ok(None),
        Some(JsonView::Null) => Ok(None),
        Some(JsonView::Str(s)) => Ok(Some(s)),
        Some(_) => Err(Error::Invalid(Field::Id)),
    }
}

/// The members that an optional `id` is written as.
pub open spec fn id_members(id: Option<Seq<char>>) -> Seq<(Seq<char>, JsonView)> {
    match id {
        Some(s) => seq![("id"@, JsonView::Str(s))],
        None => seq![],
    }
}

/// Reads the optional `id` member of `m`.
fn read_id(m: &Vec<(String, Json)>) -> (r: Result<Option<String>, Error>)
    ensures
        match r {
            Ok(x) => id_from(lookup(members_view(m@), "id"@)) == Ok::<Option<Seq<char>>, Error>(opt_view(x)),
            Err(e) => id_from(lookup(members_view(m@), "id"@)) == Err::<Option<Seq<char>>, Error>(e),
        },
{
    match get_member(m, "id") {
        None => Ok(None),
        Some(Json::Null) => Ok(None),
        Some(Json::Str(s)) => Ok(Some(s.clone())),
        Some(_) => Err(Error::Invalid(Field::Id)),
    }
}

/// Writes an optional `id` as members.
fn write_id(id: &Option<String>) -> (r: Vec<(String, Json)>)
    ensures
        members_view(r@) == id_members(opt_view(*id)),
{
    let mut r: Vec<(String, Json)> = Vec::new();
    if let Some(s) = id {
        r.push(("id".to_string(), Json::Str(s.clone())));
    }
    proof {
        assert(members_view(r@) =~= id_members(opt_view(*id)));
    }
    r
}

/// The mathematical value of an object.
pub struct ObjectView {
    pub id: Option<Seq<char>>,
    pub ty: ObjectType,
    /// Every other member, in order.
    pub tail: Seq<(Seq<char>, JsonView)>,
}

/// An ActivityStreams object: an optional `id`, a `type`, and every other
/// member of the JSON object.
#[derive(Debug, PartialEq, Eq)]
pub struct Object {
    pub id: Option<String>,
    pub ty: ObjectType,
    pub extra_fields: Vec<(String, Json)>,
}

impl View for Object {
    type V = ObjectView;

    open spec fn view(&self) -> ObjectView {
        ObjectView { id: opt_view(self.id), ty: self.ty, tail: members_view(self.extra_fields@) }
    }
}

/// The names of the members that an object holds in typed fields.
pub open spec fn object_keys() -> Seq<Seq<char>> {
    seq!["id"@, "type"@]
}

/// The object that a JSON value reads as, or why it does not read as one.
pub open spec fn object_parts(j: JsonView) -> Result<ObjectView, Error> {
    match j {
        JsonView::Object(m) => match id_from(lookup(m, "id"@)) {
            Err(e) => Err(e),
            Ok(id) => match lookup(m, "type"@) {
                None => Err(Error::Missing(Field::Type)),
                Some(JsonView::Str(s)) => match ObjectType::named(s) {
                    Some(ty) => Ok(ObjectView { id, ty, tail: canon(omit(m, object_keys())) }),
                    None => Err(Error::Invalid(Field::Type)),
                },
                Some(_) => Err(Error::Invalid(Field::Type)),
            },
        },
        _ => Err(Error::NotAnObject),
    }
}

/// The members that an object is written as: `id` when present, `type`,
/// then every other member.
pub open spec fn object_members(o: ObjectView) -> Seq<(Seq<char>, JsonView)> {
    id_members(o.id) + (seq![("type"@, JsonView::Str(o.ty.spec_name()))] + o.tail)
}

impl Object {
    /// Reads an object from the members of a JSON object.
    fn from_members(m: &Vec<(String, Json)>) -> (r: Result<Object, Error>)
        ensures
            res_view(r) == object_parts(JsonView::Object(members_view(m@))),
            r matches Ok(o) ==> sorted(o@.tail),
    {
        let id = match read_id(m) {
            Ok(id) => id,
            Err(e) => return Err(e),
        };
        let ty = match get_member(m, "type") {
            None => return Err(Error::Missing(Field::Type)),
            Some(Json::Str(s)) => match ObjectType::from_name(s) {
                Some(ty) => ty,
                None => return Err(Error::Invalid(Field::Type)),
            },
            Some(_) => return Err(Error::Invalid(Field::Type)),
        };
        let known: Vec<&str> = vec!["id", "type"];
        proof {
            assert(views_of(known@) =~= object_keys());
        }
        let omitted = omit_names(m, &known);
                let extra_fields = canonical(&omitted);
                proof {
                    lemma_canon_sorted(members_view(omitted@));
                }
        Ok(Object { id, ty, extra_fields })
    }

    /// Reads an object from a JSON value: `type` must name a term of the
    /// vocabulary and `id`, when present, must be a string or `null`; every
    /// other member is kept as it is.
    pub fn parse(j: &Json) -> (r: Result<Object, Error>)
        ensures
            res_view(r) == object_parts(j@),
            r matches Ok(o) ==> sorted(o@.tail),
    {
        match j {
            Json::Object(m) => {
                proof {
                    lemma_object_view(*m);
                }
                Object::from_members(m)
            },
            _ => Err(Error::NotAnObject),
        }
    }

    /// The members that the object is written as.
    fn members(&self) -> (r: Vec<(String, Json)>)
        ensures
            members_view(r@) == object_members(self@),
    {
        let mut r = write_id(&self.id);
        let ghost front = members_view(r@);
        r.push(("type".to_string(), Json::Str(self.ty.name().to_string())));
        proof {
            assert(members_view(r@) =~= front + seq![("type"@, JsonView::Str(self.ty.spec_name()))]);
        }
        append_members(&mut r, &self.extra_fields);
        proof {
            assert(members_view(r@) =~= object_members(self@));
        }
        r
    }

    /// Writes the object as one JSON object: its typed fields and then every
    /// other member.
    pub fn serialize(&self) -> (r: Json)
        ensures
            r@ == JsonView::Object(object_members(self@)),
    {
        let m = self.members();
        proof {
            lemma_object_view(m);
        }
        Json::Object(m)
    }

    /// The member `field` read as a `T`: nothing when it is absent, and
    /// nothing when its value does not read as a `T`.
    pub fn get_field<T: FromJson>(&self, field: &str) -> (r: Option<T>)
        ensures
            opt_view(r) == field_value::<T>(self@.tail, field@),
    {
        get_member_as(&self.extra_fields, field)
    }

    /// Gives the member `field` the value `value` written as JSON; the typed
    /// fields are left alone, whatever the name.
    pub fn set_field<T: ToJson>(&mut self, field: &str, value: &T)
        ensures
            final(self)@.tail == upsert(old(self)@.tail, field@, T::encode(value@)),
            sorted(old(self)@.tail) ==> sorted(final(self)@.tail),
            final(self)@.id == old(self)@.id,
            final(self)@.ty == old(self)@.ty,
    {
        let v = value.to_json();
        let ghost before = members_view(self.extra_fields@);
        upsert_member(&mut self.extra_fields, field, v);
        proof {
            if sorted(before) {
                lemma_upsert_sorted(before, field@, T::encode(value@));
            }
        }
    }

    /// Every member but the typed fields, read together as one JSON object
    /// of type `T`.
    pub fn extract<T: FromJson>(&self) -> (r: Option<T>)
        ensures
            opt_view(r) == T::decode(JsonView::Object(self@.tail)),
    {
        let m = crate::json::copy_members(&self.extra_fields);
        proof {
            lemma_object_view(m);
        }
        T::from_json(&Json::Object(m))
    }
}

impl FromJson for Object {
    open spec fn decode(j: JsonView) -> Option<ObjectView> {
        match object_parts(j) {
            Ok(o) => Some(o),
            Err(_) => None,
        }
    }

    fn from_json(j: &Json) -> (r: Option<Object>) {
        match Object::parse(j) {
            Ok(o) => Some(o),
            Err(_) => None,
        }
    }
}

impl ToJson for Object {
    open spec fn encode(v: ObjectView) -> JsonView {
        JsonView::Object(object_members(v))
    }

    fn to_json(&self) -> (r: Json) {
        self.serialize()
    }
}


/// The `type` of a link.
#[derive(Clone, Copy, Debug, PartialEq, Eq, Structural)]
pub enum LinkType {
    Link,
    Mention,
}

impl LinkType {
    /// The name of the variant on the wire.
    pub open spec fn spec_name(self) -> Seq<char> {
        match self {
            LinkType::Link => "Link"@,
            LinkType::Mention => "Mention"@,
        }
    }

    /// The variant whose wire name is `s`, if any.
    pub open spec fn named(s: Seq<char>) -> Option<LinkType> {
        if exists|t: LinkType| t.spec_name() == s {
            Some(choose|t: LinkType| t.spec_name() == s)
        } else {
            None
        }
    }

    /// Distinct variants have distinct wire names.
    pub proof fn lemma_name_injective(self, other: Self)
        ensures
            self.spec_name() == other.spec_name() ==> self == other,
    {
        if self.spec_name() == other.spec_name() {
            reveal_strlit("Link");
            reveal_strlit("Mention");
            let s = self.spec_name();
            let o = other.spec_name();
            assert(s.len() == o.len());
            assert(s[0] == o[0]);
        }
    }

    /// The wire name of the variant.
    pub fn name(&self) -> (r: &'static str)
        ensures
            r@ == self.spec_name(),
    {
        match self {
            LinkType::Link => "Link",
            LinkType::Mention => "Mention",
        }
    }

    /// The variant whose wire name is `s`, if any.
    pub fn from_name(s: &String) -> (r: Option<LinkType>)
        ensures
            r == LinkType::named(s@),
    {
        if same_text(s, "Link") {
            proof {
                LinkType::Link.lemma_named();
            }
            Some(LinkType::Link)
        } else if same_text(s, "Mention") {
            proof {
                LinkType::Mention.lemma_named();
            }
            Some(LinkType::Mention)
        } else {
            None
        }
    }

    /// Parsing the wire name gives the variant back.
    pub proof fn lemma_named(self)
        ensures
            LinkType::named(self.spec_name()) == Some(self),
    {
        let t = choose|t: LinkType| t.spec_name() == self.spec_name();
        t.lemma_name_injective(self);
    }
}

impl View for LinkType {
    type V = LinkType;

    open spec fn view(&self) -> LinkType {
        *self
    }
}

impl FromJson for LinkType {
    /// A string that names a variant.
    open spec fn decode(j: JsonView) -> Option<LinkType> {
        match j {
            JsonView::Str(s) => LinkType::named(s),
            _ => None,
        }
    }

    fn from_json(j: &Json) -> (r: Option<LinkType>) {
        match j {
            Json::Str(s) => LinkType::from_name(s),
            _ => None,
        }
    }
}

impl ToJson for LinkType {
    open spec fn encode(v: LinkType) -> JsonView {
        JsonView::Str(v.spec_name())
    }

    fn to_json(&self) -> (r: Json) {
        Json::Str(self.name().to_string())
    }
}


/// The mathematical value of a link.
pub struct LinkView {
    pub ty: LinkType,
    pub id: Option<Seq<char>>,
    pub href: Seq<char>,
    /// Every other member, in order.
    pub tail: Seq<(Seq<char>, JsonView)>,
}

/// An ActivityStreams link: a `type`, an optional `id`, an `href`, and every
/// other member of the JSON object.
#[derive(Debug, PartialEq, Eq)]
pub struct Link {
    pub ty: LinkType,
    pub id: Option<String>,
    pub href: String,
    pub extra_fields: Vec<(String, Json)>,
}

impl View for Link {
    type V = LinkView;

    open spec fn view(&self) -> LinkView {
        LinkView {
            ty: self.ty,
            id: opt_view(self.id),
            href: self.href@,
            tail: members_view(self.extra_fields@),
        }
    }
}

/// The names of the members that a link holds in typed fields.
pub open spec fn link_keys() -> Seq<Seq<char>> {
    seq!["type"@, "id"@, "href"@]
}

/// The link that a JSON value reads as, or why it does not read as one.
pub open spec fn link_parts(j: JsonView) -> Result<LinkView, Error> {
    match j {
        JsonView::Object(m) => match lookup(m, "type"@) {
            None => Err(Error::Missing(Field::Type)),
            Some(JsonView::Str(s)) => match LinkType::named(s) {
                None => Err(Error::Invalid(Field::Type)),
                Some(ty) => match id_from(lookup(m, "id"@)) {
                    Err(e) => Err(e),
                    Ok(id) => match lookup(m, "href"@) {
                        None => Err(Error::Missing(Field::Href)),
                        Some(JsonView::Str(href)) => Ok(LinkView { ty, id, href, tail: canon(omit(m, link_keys())) }),
                        Some(_) => Err(Error::Invalid(Field::Href)),
                    },
                },
            },
            Some(_) => Err(Error::Invalid(Field::Type)),
        },
        _ => Err(Error::NotAnObject),
    }
}

/// The members that a link is written as: `type`, `id` when present,
/// `href`, then every other member.
pub open spec fn link_members(l: LinkView) -> Seq<(Seq<char>, JsonView)> {
    seq![("type"@, JsonView::Str(l.ty.spec_name()))] + id_members(l.id) + seq![("href"@, JsonView::Str(l.href))] + l.tail
}

impl Link {
    /// Reads a link from a JSON value: `type` must be `Link` or `Mention`,
    /// `id`, when present, a string or `null`, and `href` a string; every
    /// other member is kept as it is.
    pub fn parse(j: &Json) -> (r: Result<Link, Error>)
        ensures
            res_view(r) == link_parts(j@),
            r matches Ok(l) ==> sorted(l@.tail),
    {
        match j {
            Json::Object(m) => {
                proof {
                    lemma_object_view(*m);
                }
                let ty = match get_member(m, "type") {
                    None => return Err(Error::Missing(Field::Type)),
                    Some(Json::Str(s)) => match LinkType::from_name(s) {
                        Some(ty) => ty,
                        None => return Err(Error::Invalid(Field::Type)),
                    },
                    Some(_) => return Err(Error::Invalid(Field::Type)),
                };
                let id = match read_id(m) {
                    Ok(id) => id,
                    Err(e) => return Err(e),
                };
                let href = match get_member(m, "href") {
                    None => return Err(Error::Missing(Field::Href)),
                    Some(Json::Str(s)) => s.clone(),
                    Some(_) => return Err(Error::Invalid(Field::Href)),
                };
                let known: Vec<&str> = vec!["type", "id", "href"];
                proof {
                    assert(views_of(known@) =~= link_keys());
                }
                let omitted = omit_names(m, &known);
                let extra_fields = canonical(&omitted);
                proof {
                    lemma_canon_sorted(members_view(omitted@));
                }
                Ok(Link { ty, id, href, extra_fields })
            },
            _ => Err(Error::NotAnObject),
        }
    }

    /// Writes the link as one JSON object: its typed fields and then every
    /// other member.
    pub fn serialize(&self) -> (r: Json)
        ensures
            r@ == JsonView::Object(link_members(self@)),
    {
        let mut m: Vec<(String, Json)> = Vec::new();
        m.push(("type".to_string(), Json::Str(self.ty.name().to_string())));
        let ids = write_id(&self.id);
        append_members(&mut m, &ids);
        let ghost front = members_view(m@);
        m.push(("href".to_string(), Json::Str(self.href.clone())));
        proof {
            assert(members_view(m@) =~= front + seq![("href"@, JsonView::Str(self.href@))]);
        }
        append_members(&mut m, &self.extra_fields);
        proof {
            assert(members_view(m@) =~= link_members(self@));
            lemma_object_view(m);
        }
        Json::Object(m)
    }

    /// The member `field` read as a `T`: nothing when it is absent, and
    /// nothing when its value does not read as a `T`.
    pub fn get_field<T: FromJson>(&self, field: &str) -> (r: Option<T>)
        ensures
            opt_view(r) == field_value::<T>(self@.tail, field@),
    {
        get_member_as(&self.extra_fields, field)
    }

    /// Gives the member `field` the value `value` written as JSON; the typed
    /// fields are left alone, whatever the name.
    pub fn set_field<T: ToJson>(&mut self, field: &str, value: &T)
        ensures
            final(self)@.tail == upsert(old(self)@.tail, field@, T::encode(value@)),
            sorted(old(self)@.tail) ==> sorted(final(self)@.tail),
            final(self)@.ty == old(self)@.ty,
            final(self)@.id == old(self)@.id,
            final(self)@.href == old(self)@.href,
    {
        let v = value.to_json();
        let ghost before = members_view(self.extra_fields@);
        upsert_member(&mut self.extra_fields, field, v);
        proof {
            if sorted(before) {
                lemma_upsert_sorted(before, field@, T::encode(value@));
            }
        }
    }
}

impl FromJson for Link {
    open spec fn decode(j: JsonView) -> Option<LinkView> {
        match link_parts(j) {
            Ok(l) => Some(l),
            Err(_) => None,
        }
    }

    fn from_json(j: &Json) -> (r: Option<Link>) {
        match Link::parse(j) {
            Ok(l) => Some(l),
            Err(_) => None,
        }
    }
}

impl ToJson for Link {
    open spec fn encode(v: LinkView) -> JsonView {
        JsonView::Object(link_members(v))
    }

    fn to_json(&self) -> (r: Json) {
        self.serialize()
    }
}


/// Writing a link whose other members avoid the typed names, and reading it
/// back, gives the same link.
pub proof fn lemma_link_round_trip(l: LinkView)
    requires
        avoids(l.tail, link_keys()),
        sorted(l.tail),
    ensures
        link_parts(JsonView::Object(link_members(l))) == Ok::<LinkView, Error>(l),
{
    reveal_strlit("id");
    reveal_strlit("type");
    reveal_strlit("href");
    let keys = link_keys();
    let t = seq![("type"@, JsonView::Str(l.ty.spec_name()))];
    let idm = id_members(l.id);
    let h = seq![("href"@, JsonView::Str(l.href))];
    let m = link_members(l);
    assert(keys[0] == "type"@);
    assert(keys[1] == "id"@);
    assert(keys[2] == "href"@);
    assert(m =~= t + (idm + (h + l.tail)));
    assert(m =~= (t + idm) + (h + l.tail));
    lemma_lookup_first(("type"@, JsonView::Str(l.ty.spec_name())), idm + (h + l.tail));
    l.ty.lemma_named();
    lemma_lookup_skip(t, idm + (h + l.tail), "id"@);
    match l.id {
        Some(s) => {
            lemma_lookup_first(("id"@, JsonView::Str(s)), h + l.tail);
        },
        None => {
            assert(idm + (h + l.tail) =~= h + l.tail);
            assert("id"@.len() != "href"@.len());
            assert(h[0].0 == "href"@);
            lemma_lookup_skip(h, l.tail, "id"@);
            lemma_lookup_avoided(l.tail, keys, "id"@);
        },
    }
    assert forall|j: int| 0 <= j < (t + idm).len() implies (t + idm)[j].0 != "href"@ by {
        assert("type"@[0] != "href"@[0]);
        if j == 0 {
            assert((t + idm)[j] == t[0]);
        } else {
            assert((t + idm)[j] == idm[j - 1]);
            assert(idm[j - 1].0 == "id"@);
            assert("id"@.len() != "href"@.len());
        }
    }
    lemma_lookup_skip(t + idm, h + l.tail, "href"@);
    lemma_lookup_first(("href"@, JsonView::Str(l.href)), l.tail);
    lemma_omit_concat(t + idm, h + l.tail, keys);
    lemma_omit_concat(t, idm, keys);
    lemma_omit_concat(h, l.tail, keys);
    lemma_omit_avoided(l.tail, keys);
    reveal_with_fuel(omit, 2);
    assert(t.drop_last() =~= Seq::<(Seq<char>, JsonView)>::empty());
    assert(t.last().0 == keys[0]);
    assert(omit(t, keys) =~= Seq::<(Seq<char>, JsonView)>::empty());
    assert(h.drop_last() =~= Seq::<(Seq<char>, JsonView)>::empty());
    assert(h.last().0 == keys[2]);
    assert(omit(h, keys) =~= Seq::<(Seq<char>, JsonView)>::empty());
    match l.id {
        Some(s) => {
            assert(idm.drop_last() =~= Seq::<(Seq<char>, JsonView)>::empty());
            assert(idm.last().0 == keys[1]);
        },
        None => {},
    }
    assert(omit(idm, keys) =~= Seq::<(Seq<char>, JsonView)>::empty());
    assert(omit(m, keys) =~= l.tail);
    lemma_canon_of_sorted(l.tail);
}

/// The mathematical value of an object or a link.
pub enum ObjectOrLinkView {
    Object(ObjectView),
    Link(LinkView),
}

/// An object or a link, told apart by shape alone.
#[derive(Debug, PartialEq, Eq)]
pub enum ObjectOrLink {
    Object(Object),
    Link(Link),
}

impl View for ObjectOrLink {
    type V = ObjectOrLinkView;

    open spec fn view(&self) -> ObjectOrLinkView {
        match self {
            ObjectOrLink::Object(o) => ObjectOrLinkView::Object(o@),
            ObjectOrLink::Link(l) => ObjectOrLinkView::Link(l@),
        }
    }
}

impl FromJson for ObjectOrLink {
    /// An object when the value reads as one, else a link when it reads as
    /// one.
    open spec fn decode(j: JsonView) -> Option<ObjectOrLinkView> {
        match object_parts(j) {
            Ok(o) => Some(ObjectOrLinkView::Object(o)),
            Err(_) => match link_parts(j) {
                Ok(l) => Some(ObjectOrLinkView::Link(l)),
                Err(_) => None,
            },
        }
    }

    fn from_json(j: &Json) -> (r: Option<ObjectOrLink>) {
        match Object::parse(j) {
            Ok(o) => Some(ObjectOrLink::Object(o)),
            Err(_) => match Link::parse(j) {
                Ok(l) => Some(ObjectOrLink::Link(l)),
                Err(_) => None,
            },
        }
    }
}

impl ToJson for ObjectOrLink {
    open spec fn encode(v: ObjectOrLinkView) -> JsonView {
        match v {
            ObjectOrLinkView::Object(o) => JsonView::Object(object_members(o)),
            ObjectOrLinkView::Link(l) => JsonView::Object(link_members(l)),
        }
    }

    fn to_json(&self) -> (r: Json) {
        match self {
            ObjectOrLink::Object(o) => o.serialize(),
            ObjectOrLink::Link(l) => l.serialize(),
        }
    }
}

/// A member `object` that reads as an object reads as the object variant of
/// `ObjectOrLink`, with the `type` that its own `type` member names; one
/// that reads only as a link reads as the link variant, with its `type`.
pub proof fn lemma_nested_extraction(m: Seq<(Seq<char>, JsonView)>, v: JsonView)
    requires
        lookup(m, "object"@) == Some(v),
        object_parts(v) is Ok || link_parts(v) is Ok,
    ensures
        object_parts(v) is Ok ==> field_value::<ObjectOrLink>(m, "object"@) == Some(ObjectOrLinkView::Object(object_parts(v)->Ok_0)),
        object_parts(v) matches Ok(o) ==> (v matches JsonView::Object(vm) && lookup(vm, "type"@) == Some(JsonView::Str(o.ty.spec_name()))),
        object_parts(v) is Err ==> field_value::<ObjectOrLink>(m, "object"@) == Some(ObjectOrLinkView::Link(link_parts(v)->Ok_0)),
        object_parts(v) is Err ==> (v matches JsonView::Object(vm) && lookup(vm, "type"@) == Some(JsonView::Str(link_parts(v)->Ok_0.ty.spec_name()))),
{
    if let JsonView::Object(vm) = v {
        if let Some(JsonView::Str(s)) = lookup(vm, "type"@) {
            if let Some(t) = ObjectType::named(s) {
                t.lemma_named();
                let u = choose|u: ObjectType| u.spec_name() == s;
                u.lemma_name_injective(t);
            }
            if let Some(t) = LinkType::named(s) {
                let u = choose|u: LinkType| u.spec_name() == s;
                u.lemma_name_injective(t);
            }
        }
    }
}

/// The ActivityStreams namespace, the usual JSON-LD context.
pub open spec fn activity_streams() -> Seq<char> {
    "https://www.w3.org/ns/activitystreams"@
}

/// The JSON-LD `@context` of a document: a single string.
#[derive(Clone, Debug, PartialEq, Eq)]
pub enum Context {
    Simple(String),
}

impl View for Context {
    type V = Seq<char>;

    open spec fn view(&self) -> Seq<char> {
        match self {
            Context::Simple(s) => s@,
        }
    }
}

impl FromJson for Context {
    /// A string.
    open spec fn decode(j: JsonView) -> Option<Seq<char>> {
        match j {
            JsonView::Str(s) => Some(s),
            _ => None,
        }
    }

    fn from_json(j: &Json) -> (r: Option<Context>) {
        match j {
            Json::Str(s) => Some(Context::Simple(s.clone())),
            _ => None,
        }
    }
}

impl ToJson for Context {
    open spec fn encode(v: Seq<char>) -> JsonView {
        JsonView::Str(v)
    }

    fn to_json(&self) -> (r: Json) {
        match self {
            Context::Simple(s) => Json::Str(s.clone()),
        }
    }
}

impl Default for Context {
    /// The ActivityStreams namespace.
    fn default() -> (r: Context)
        ensures
            r@ == activity_streams(),
    {
        Context::Simple("https://www.w3.org/ns/activitystreams".to_string())
    }
}

/// The mathematical value of a document.
pub struct DocumentView {
    pub context: Seq<char>,
    pub object: ObjectView,
}

/// A JSON-LD document: a context and an object, written as one JSON object.
#[derive(Debug, PartialEq, Eq)]
pub struct JsonLdDocument {
    pub context: Context,
    pub object: Object,
}

impl View for JsonLdDocument {
    type V = DocumentView;

    open spec fn view(&self) -> DocumentView {
        DocumentView { context: self.context@, object: self.object@ }
    }
}

/// The names of the members that a document holds in typed fields.
pub open spec fn document_keys() -> Seq<Seq<char>> {
    seq!["@context"@, "id"@, "type"@]
}

/// The name of the context member, alone.
pub open spec fn context_key() -> Seq<Seq<char>> {
    seq!["@context"@]
}

/// The document that a JSON value reads as, or why it does not read as one.
pub open spec fn document_parts(j: JsonView) -> Result<DocumentView, Error> {
    match j {
        JsonView::Object(m) => match lookup(m, "@context"@) {
            None => Err(Error::Missing(Field::Context)),
            Some(JsonView::Str(c)) => match object_parts(JsonView::Object(omit(m, context_key()))) {
                Ok(o) => Ok(DocumentView { context: c, object: o }),
                Err(e) => Err(e),
            },
            Some(_) => Err(Error::Invalid(Field::Context)),
        },
        _ => Err(Error::NotAnObject),
    }
}

/// The members that a document is written as: `@context`, then those of
/// its object.
pub open spec fn document_members(d: DocumentView) -> Seq<(Seq<char>, JsonView)> {
    seq![("@context"@, JsonView::Str(d.context))] + object_members(d.object)
}

impl JsonLdDocument {
    /// Reads a document from a JSON value: `@context` must be a string, and
    /// the other members must read as an object.
    pub fn parse(j: &Json) -> (r: Result<JsonLdDocument, Error>)
        ensures
            res_view(r) == document_parts(j@),
            r matches Ok(d) ==> sorted(d@.object.tail),
    {
        match j {
            Json::Object(m) => {
                proof {
                    lemma_object_view(*m);
                }
                let context = match get_member(m, "@context") {
                    None => return Err(Error::Missing(Field::Context)),
                    Some(Json::Str(c)) => Context::Simple(c.clone()),
                    Some(_) => return Err(Error::Invalid(Field::Context)),
                };
                let known: Vec<&str> = vec!["@context"];
                proof {
                    assert(views_of(known@) =~= context_key());
                }
                let rest = omit_names(m, &known);
                match Object::from_members(&rest) {
                    Ok(object) => Ok(JsonLdDocument { context, object }),
                    Err(e) => Err(e),
                }
            },
            _ => Err(Error::NotAnObject),
        }
    }

    /// The whole document, its typed fields merged back among the other
    /// members, read as one JSON object of type `T`.
    pub fn extract<T: FromJson>(&self) -> (r: Option<T>)
        ensures
            opt_view(r) == T::decode(JsonView::Object(document_members(self@))),
    {
        T::from_json(&self.serialize())
    }

    /// Writes the document as one JSON object.
    pub fn serialize(&self) -> (r: Json)
        ensures
            r@ == JsonView::Object(document_members(self@)),
    {
        let mut m: Vec<(String, Json)> = Vec::new();
        let c = match &self.context {
            Context::Simple(c) => c.clone(),
        };
        m.push(("@context".to_string(), Json::Str(c)));
        let rest = self.object.members();
        append_members(&mut m, &rest);
        proof {
            assert(members_view(m@) =~= document_members(self@));
            lemma_object_view(m);
        }
        Json::Object(m)
    }
}

/// Writing an object whose other members avoid the typed names, and reading
/// it back, gives the same object.
pub proof fn lemma_object_round_trip(o: ObjectView)
    requires
        avoids(o.tail, object_keys()),
        sorted(o.tail),
    ensures
        object_parts(JsonView::Object(object_members(o))) == Ok::<ObjectView, Error>(o),
{
    reveal_strlit("id");
    reveal_strlit("type");
    let keys = object_keys();
    let t = seq![("type"@, JsonView::Str(o.ty.spec_name()))];
    let rest = t + o.tail;
    let m = object_members(o);
    assert(keys[0] == "id"@);
    assert(keys[1] == "type"@);
    lemma_lookup_avoided(o.tail, keys, "id"@);
    lemma_lookup_skip(t, o.tail, "id"@);
    match o.id {
        Some(s) => {
            lemma_lookup_first(("id"@, JsonView::Str(s)), rest);
        },
        None => {
            assert(m =~= rest);
        },
    }
    lemma_lookup_skip(id_members(o.id), rest, "type"@);
    lemma_lookup_first(("type"@, JsonView::Str(o.ty.spec_name())), o.tail);
    o.ty.lemma_named();
    lemma_omit_concat(id_members(o.id), rest, keys);
    lemma_omit_concat(t, o.tail, keys);
    lemma_omit_avoided(o.tail, keys);
    assert(t.drop_last() =~= Seq::<(Seq<char>, JsonView)>::empty());
    reveal_with_fuel(omit, 2);
    assert(t.last().0 == keys[1]);
    assert(omit(t, keys) =~= Seq::<(Seq<char>, JsonView)>::empty());
    match o.id {
        Some(s) => {
            assert(id_members(o.id).drop_last() =~= Seq::<(Seq<char>, JsonView)>::empty());
            assert(id_members(o.id).last().0 == keys[0]);
        },
        None => {},
    }
    assert(omit(id_members(o.id), keys) =~= Seq::<(Seq<char>, JsonView)>::empty());
    assert(omit(m, keys) =~= o.tail);
    lemma_canon_of_sorted(o.tail);
}

/// The members that an object is written as carry no `@context` when its
/// other members carry none.
proof fn lemma_object_members_avoid_context(o: ObjectView)
    requires
        avoids(o.tail, context_key()),
    ensures
        avoids(object_members(o), context_key()),
{
    reveal_strlit("id");
    reveal_strlit("type");
    reveal_strlit("@context");
    let t = seq![("type"@, JsonView::Str(o.ty.spec_name()))];
    assert(!context_key().contains("type"@)) by {
        if context_key().contains("type"@) {
            assert(context_key()[0] == "type"@);
        }
    }
    assert(avoids(t, context_key()));
    if id_members(o.id).len() > 0 {
        assert(!context_key().contains("id"@)) by {
            if context_key().contains("id"@) {
                assert(context_key()[0] == "id"@);
            }
        }
    }
    assert(avoids(id_members(o.id), context_key()));
    lemma_avoids_concat(t, o.tail, context_key());
    lemma_avoids_concat(id_members(o.id), t + o.tail, context_key());
}

/// Every name of a document's typed fields is the context's or an object's.
proof fn lemma_document_keys()
    ensures
        forall|k: Seq<char>| document_keys().contains(k) ==> context_key().contains(k) || object_keys().contains(k),
        forall|k: Seq<char>| object_keys().contains(k) ==> document_keys().contains(k),
        forall|k: Seq<char>| context_key().contains(k) ==> document_keys().contains(k),
{
    assert forall|k: Seq<char>| document_keys().contains(k) implies context_key().contains(k) || object_keys().contains(k) by {
        let i = choose|i: int| 0 <= i < document_keys().len() && document_keys()[i] == k;
        if i == 0 {
            assert(context_key()[0] == k);
        } else if i == 1 {
            assert(object_keys()[0] == k);
        } else {
            assert(object_keys()[1] == k);
        }
    }
    assert forall|k: Seq<char>| object_keys().contains(k) implies document_keys().contains(k) by {
        let i = choose|i: int| 0 <= i < object_keys().len() && object_keys()[i] == k;
        assert(document_keys()[i + 1] == k);
    }
    assert forall|k: Seq<char>| context_key().contains(k) implies document_keys().contains(k) by {
        assert(document_keys()[0] == k);
    }
}

/// Writing a document whose other members avoid the typed names, and
/// reading it back, gives the same document.
pub proof fn lemma_document_round_trip(d: DocumentView)
    requires
        avoids(d.object.tail, document_keys()),
        sorted(d.object.tail),
    ensures
        document_parts(JsonView::Object(document_members(d))) == Ok::<DocumentView, Error>(d),
{
    let c = seq![("@context"@, JsonView::Str(d.context))];
    let om = object_members(d.object);
    lemma_document_keys();
    lemma_avoids_within(d.object.tail, document_keys(), document_keys(), object_keys());
    lemma_avoids_within(d.object.tail, document_keys(), document_keys(), context_key());
    lemma_lookup_first(("@context"@, JsonView::Str(d.context)), om);
    lemma_object_members_avoid_context(d.object);
    lemma_omit_concat(c, om, context_key());
    lemma_omit_avoided(om, context_key());
    assert(context_key()[0] == "@context"@);
    assert(c.drop_last() =~= Seq::<(Seq<char>, JsonView)>::empty());
    reveal_with_fuel(omit, 2);
    assert(c.last().0 == context_key()[0]);
    assert(omit(c, context_key()) =~= Seq::<(Seq<char>, JsonView)>::empty());
    assert(omit(document_members(d), context_key()) =~= om);
    lemma_object_round_trip(d.object);
}

/// What a document read from JSON holds besides its typed fields carries
/// none of their names.
pub proof fn lemma_parsed_tail(j: JsonView)
    requires
        document_parts(j) is Ok,
    ensures
        avoids(document_parts(j)->Ok_0.object.tail, document_keys()),
        sorted(document_parts(j)->Ok_0.object.tail),
{
    if let JsonView::Object(m) = j {
        let rest = omit(m, context_key());
        lemma_omit_avoids(m, context_key(), context_key());
        lemma_omit_avoids(rest, object_keys(), context_key());
        lemma_document_keys();
        lemma_avoids_within(omit(rest, object_keys()), context_key(), object_keys(), document_keys());
        lemma_canon_avoids(omit(rest, object_keys()), document_keys());
        lemma_canon_sorted(omit(rest, object_keys()));
    }
}

/// Reading a document from JSON, writing it, and reading the result again
/// gives the document first read.
pub proof fn lemma_round_trip(j: JsonView)
    requires
        document_parts(j) is Ok,
    ensures
        document_parts(JsonView::Object(document_members(document_parts(j)->Ok_0))) == document_parts(j),
{
    lemma_parsed_tail(j);
    lemma_document_round_trip(document_parts(j)->Ok_0);
}

} // verus!
