use vstd::prelude::*;

use crate::json::{
    append_members, avoids, canon, canonical, lemma_canon_avoids, lemma_canon_of_sorted,
    lemma_canon_sorted, lemma_upsert_sorted, sorted, field_value, get_member, get_member_as, lemma_lookup_first, lemma_lookup_upsert,
    lemma_object_view, lemma_omit_avoided, lemma_omit_avoids, lemma_omit_concat, lookup,
    members_view, omit, omit_names, opt_view, same_text, upsert, upsert_member, views_of,
    FromJson, Json, JsonView, ToJson,
};
use crate::{context_key, res_view, Field};

pub use crate::{Context, Error};

verus! {

/// The `type` of an actor.
#[derive(Clone, Copy, Debug, PartialEq, Eq, Structural)]
pub enum ActorType {
    Application,
    Group,
    Organisation,
    Person,
    Service,
}

impl ActorType {
    /// The name of the variant on the wire.
    pub open spec fn spec_name(self) -> Seq<char> {
        match self {
            ActorType::Application => "Application"@,
            ActorType::Group => "Group"@,
            ActorType::Organisation => "Organisation"@,
            ActorType::Person => "Person"@,
            ActorType::Service => "Service"@,
        }
    }

    /// The variant whose wire name is `s`, if any.
    pub open spec fn named(s: Seq<char>) -> Option<ActorType> {
        if exists|t: ActorType| t.spec_name() == s {
            Some(choose|t: ActorType| t.spec_name() == s)
        } else {
            None
        }
    }

    /// Distinct variants have distinct wire names.
    pub proof fn lemma_name_injective(self, other: Self)
        ensures
            self.spec_name() == other.spec_name() ==> self == other,
    {
        if self.spec_name() == other.spec_name() {
            reveal_strlit("Application");
            reveal_strlit("Group");
            reveal_strlit("Organisation");
            reveal_strlit("Person");
            reveal_strlit("Service");
            let s = self.spec_name();
            let o = other.spec_name();
            assert(s.len() == o.len());
            assert(s[0] == o[0]);
        }
    }

    /// The wire name of the variant.
    pub fn name(&self) -> (r: &'static str)
        ensures
            r@ == self.spec_name(),
    {
        match self {
            ActorType::Application => "Application",
            ActorType::Group => "Group",
            ActorType::Organisation => "Organisation",
            ActorType::Person => "Person",
            ActorType::Service => "Service",
        }
    }

    /// The variant whose wire name is `s`, if any.
    pub fn from_name(s: &String) -> (r: Option<ActorType>)
        ensures
            r == ActorType::named(s@),
    {
        if same_text(s, "Application") {
            proof {
                ActorType::Application.lemma_named();
            }
            Some(ActorType::Application)
        } else if same_text(s, "Group") {
            proof {
                ActorType::Group.lemma_named();
            }
            Some(ActorType::Group)
        } else if same_text(s, "Organisation") {
            proof {
                ActorType::Organisation.lemma_named();
            }
            Some(ActorType::Organisation)
        } else if same_text(s, "Person") {
            proof {
                ActorType::Person.lemma_named();
            }
            Some(ActorType::Person)
        } else if same_text(s, "Service") {
            proof {
                ActorType::Service.lemma_named();
            }
            Some(ActorType::Service)
        } else {
            None
        }
    }

    /// Parsing the wire name gives the variant back.
    pub proof fn lemma_named(self)
        ensures
            ActorType::named(self.spec_name()) == Some(self),
    {
        let t = choose|t: ActorType| t.spec_name() == self.spec_name();
        t.lemma_name_injective(self);
    }
}

impl View for ActorType {
    type V = ActorType;

    open spec fn view(&self) -> ActorType {
        *self
    }
}

impl FromJson for ActorType {
    /// A string that names a variant.
    open spec fn decode(j: JsonView) -> Option<ActorType> {
        match j {
            JsonView::Str(s) => ActorType::named(s),
            _ => None,
        }
    }

    fn from_json(j: &Json) -> (r: Option<ActorType>) {
        match j {
            Json::Str(s) => ActorType::from_name(s),
            _ => None,
        }
    }
}

impl ToJson for ActorType {
    open spec fn encode(v: ActorType) -> JsonView {
        JsonView::Str(v.spec_name())
    }

    fn to_json(&self) -> (r: Json) {
        Json::Str(self.name().to_string())
    }
}


/// The mathematical value of a document held as a context and its other
/// members.
pub struct DocumentView {
    pub context: Seq<char>,
    /// Every member but `@context`, in order.
    pub tail: Seq<(Seq<char>, JsonView)>,
}

/// A JSON-LD document: a context and every other member of the JSON object.
#[derive(Debug, PartialEq, Eq)]
pub struct JsonLdDocument {
    pub context: Context,
    pub extra_fields: Vec<(String, Json)>,
}

impl View for JsonLdDocument {
    type V = DocumentView;

    open spec fn view(&self) -> DocumentView {
        DocumentView { context: self.context@, tail: members_view(self.extra_fields@) }
    }
}

/// The document that a JSON value reads as, or why it does not read as one.
pub open spec fn document_parts(j: JsonView) -> Result<DocumentView, Error> {
    match j {
        JsonView::Object(m) => match lookup(m, "@context"@) {
            None => Err(Error::Missing(Field::Context)),
            Some(JsonView::Str(c)) => Ok(DocumentView { context: c, tail: canon(omit(m, context_key())) }),
            Some(_) => Err(Error::Invalid(Field::Context)),
        },
        _ => Err(Error::NotAnObject),
    }
}

/// The members that a document is written as: `@context`, then every other
/// member.
pub open spec fn document_members(d: DocumentView) -> Seq<(Seq<char>, JsonView)> {
    seq![("@context"@, JsonView::Str(d.context))] + d.tail
}

impl JsonLdDocument {
    /// The whole document, its context merged back among the other members,
    /// read as one JSON object of type `T`.
    pub fn extract<T: FromJson>(&self) -> (r: Option<T>)
        ensures
            opt_view(r) == T::decode(JsonView::Object(document_members(self@))),
    {
        T::from_json(&self.serialize())
    }

    /// Reads a document from a JSON value: `@context` must be a string;
    /// every other member is kept as it is.
    pub fn parse(j: &Json) -> (r: Result<JsonLdDocument, Error>)
        ensures
            res_view(r) == document_parts(j@),
            r matches Ok(d) ==> sorted(d@.tail),
    {
        match j {
            Json::Object(m) => {
                proof {
                    lemma_object_view(*m);
                }
                let context = match get_member(m, "@context") {
                    None => return Err(Error::Missing(Field::Context)),
                    Some(Json::Str(c)) => Context::Simple(c.clone()),
                    Some(_) => return Err(Error::Invalid(Field::Context)),
                };
                let known: Vec<&str> = vec!["@context"];
                proof {
                    assert(views_of(known@) =~= context_key());
                }
                let omitted = omit_names(m, &known);
                let extra_fields = canonical(&omitted);
                proof {
                    lemma_canon_sorted(members_view(omitted@));
                }
                Ok(JsonLdDocument { context, extra_fields })
            },
            _ => Err(Error::NotAnObject),
        }
    }

    /// Writes the document as one JSON object.
    pub fn serialize(&self) -> (r: Json)
        ensures
            r@ == JsonView::Object(document_members(self@)),
    {
        let mut m: Vec<(String, Json)> = Vec::new();
        let c = match &self.context {
            Context::Simple(c) => c.clone(),
        };
        m.push(("@context".to_string(), Json::Str(c)));
        append_members(&mut m, &self.extra_fields);
        proof {
            assert(members_view(m@) =~= document_members(self@));
            lemma_object_view(m);
        }
        Json::Object(m)
    }

    /// The member `field` read as a `T`: nothing when it is absent, and
    /// nothing when its value does not read as a `T`.
    pub fn get_field<T: FromJson>(&self, field: &str) -> (r: Option<T>)
        ensures
            opt_view(r) == field_value::<T>(self@.tail, field@),
    {
        get_member_as(&self.extra_fields, field)
    }

    /// Gives the member `field` the value `value` written as JSON; the
    /// context is left alone, whatever the name.
    pub fn set_field<T: ToJson>(&mut self, field: &str, value: &T)
        ensures
            final(self)@.tail == upsert(old(self)@.tail, field@, T::encode(value@)),
            sorted(old(self)@.tail) ==> sorted(final(self)@.tail),
            final(self)@.context == old(self)@.context,
    {
        let v = value.to_json();
        let ghost before = members_view(self.extra_fields@);
        upsert_member(&mut self.extra_fields, field, v);
        proof {
            if sorted(before) {
                lemma_upsert_sorted(before, field@, T::encode(value@));
            }
        }
    }
}

/// Writing a document whose other members carry no `@context`, and reading
/// it back, gives the same document.
pub proof fn lemma_document_round_trip(d: DocumentView)
    requires
        avoids(d.tail, context_key()),
        sorted(d.tail),
    ensures
        document_parts(JsonView::Object(document_members(d))) == Ok::<DocumentView, Error>(d),
{
    let c = seq![("@context"@, JsonView::Str(d.context))];
    lemma_lookup_first(("@context"@, JsonView::Str(d.context)), d.tail);
    lemma_omit_concat(c, d.tail, context_key());
    lemma_omit_avoided(d.tail, context_key());
    reveal_with_fuel(omit, 2);
    assert(c.drop_last() =~= Seq::<(Seq<char>, JsonView)>::empty());
    assert(c.last().0 == context_key()[0]);
    assert(omit(document_members(d), context_key()) =~= d.tail);
    lemma_canon_of_sorted(d.tail);
}

/// Reading a document from JSON, writing it, and reading the result again
/// gives the document first read.
pub proof fn lemma_round_trip(j: JsonView)
    requires
        document_parts(j) is Ok,
    ensures
        document_parts(JsonView::Object(document_members(document_parts(j)->Ok_0))) == document_parts(j),
{
    if let JsonView::Object(m) = j {
        lemma_omit_avoids(m, context_key(), context_key());
        lemma_canon_avoids(omit(m, context_key()), context_key());
        lemma_canon_sorted(omit(m, context_key()));
        lemma_document_round_trip(document_parts(j)->Ok_0);
    }
}

/// The mathematical value of an actor.
pub struct ActorView {
    pub ty: ActorType,
    pub inbox: Seq<char>,
    pub outbox: Seq<char>,
    /// Every other member, in order.
    pub tail: Seq<(Seq<char>, JsonView)>,
}

/// An ActivityStreams actor: a `type`, an `inbox`, an `outbox`, and every
/// other member of the JSON object.
#[derive(Debug, PartialEq, Eq)]
pub struct Actor {
    pub ty: ActorType,
    pub inbox: String,
    pub outbox: String,
    pub extra_fields: Vec<(String, Json)>,
}

impl View for Actor {
    type V = ActorView;

    open spec fn view(&self) -> ActorView {
        ActorView {
            ty: self.ty,
            inbox: self.inbox@,
            outbox: self.outbox@,
            tail: members_view(self.extra_fields@),
        }
    }
}

/// The names of the members that an actor holds in typed fields.
pub open spec fn actor_keys() -> Seq<Seq<char>> {
    seq!["type"@, "inbox"@, "outbox"@]
}

/// A required string member: its text, or why there is none.
pub open spec fn text_member(m: Seq<(Seq<char>, JsonView)>, k: Seq<char>, f: Field) -> Result<Seq<char>, Error> {
    match lookup(m, k) {
        None => Err(Error::Missing(f)),
        Some(JsonView::Str(s)) => Ok(s),
        Some(_) => Err(Error::Invalid(f)),
    }
}

/// The actor that the members of a JSON object read as, or why they do not.
pub open spec fn actor_parts(m: Seq<(Seq<char>, JsonView)>) -> Result<ActorView, Error> {
    match lookup(m, "type"@) {
        None => Err(Error::Missing(Field::Type)),
        Some(JsonView::Str(s)) => match ActorType::named(s) {
            None => Err(Error::Invalid(Field::Type)),
            Some(ty) => match text_member(m, "inbox"@, Field::Inbox) {
                Err(e) => Err(e),
                Ok(inbox) => match text_member(m, "outbox"@, Field::Outbox) {
                    Err(e) => Err(e),
                    Ok(outbox) => Ok(ActorView { ty, inbox, outbox, tail: canon(omit(m, actor_keys())) }),
                },
            },
        },
        Some(_) => Err(Error::Invalid(Field::Type)),
    }
}

/// The actor that a document converts to: its members read as an actor,
/// with the document's context set under `@context`.
pub open spec fn actor_of(d: DocumentView) -> Result<ActorView, Error> {
    match actor_parts(d.tail) {
        Ok(a) => Ok(
            ActorView {
                ty: a.ty,
                inbox: a.inbox,
                outbox: a.outbox,
                tail: upsert(a.tail, "@context"@, JsonView::Str(d.context)),
            },
        ),
        Err(e) => Err(e),
    }
}

/// Reads a required string member.
fn read_text(m: &Vec<(String, Json)>, k: &str, f: Field) -> (r: Result<String, Error>)
    ensures
        match r {
            Ok(s) => text_member(members_view(m@), k@, f) == Ok::<Seq<char>, Error>(s@),
            Err(e) => text_member(members_view(m@), k@, f) == Err::<Seq<char>, Error>(e),
        },
{
    match get_member(m, k) {
        None => Err(Error::Missing(f)),
        Some(Json::Str(s)) => Ok(s.clone()),
        Some(_) => Err(Error::Invalid(f)),
    }
}

impl Actor {
    /// Reads an actor from the members of a JSON object.
    fn from_members(m: &Vec<(String, Json)>) -> (r: Result<Actor, Error>)
        ensures
            res_view(r) == actor_parts(members_view(m@)),
            r matches Ok(a) ==> sorted(a@.tail),
    {
        let ty = match get_member(m, "type") {
            None => return Err(Error::Missing(Field::Type)),
            Some(Json::Str(s)) => match ActorType::from_name(s) {
                Some(ty) => ty,
                None => return Err(Error::Invalid(Field::Type)),
            },
            Some(_) => return Err(Error::Invalid(Field::Type)),
        };
        let inbox = match read_text(m, "inbox", Field::Inbox) {
            Ok(s) => s,
            Err(e) => return Err(e),
        };
        let outbox = match read_text(m, "outbox", Field::Outbox) {
            Ok(s) => s,
            Err(e) => return Err(e),
        };
        let known: Vec<&str> = vec!["type", "inbox", "outbox"];
        proof {
            assert(views_of(known@) =~= actor_keys());
        }
        let omitted = omit_names(m, &known);
                let extra_fields = canonical(&omitted);
                proof {
                    lemma_canon_sorted(members_view(omitted@));
                }
        Ok(Actor { ty, inbox, outbox, extra_fields })
    }

    /// Reads an actor from a JSON value: `type` must name a kind of actor and
    /// `inbox` and `outbox` must be strings; every other member is kept as it
    /// is.
    pub fn parse(j: &Json) -> (r: Result<Actor, Error>)
        ensures
            res_view(r) == match j@ {
                JsonView::Object(m) => actor_parts(m),
                _ => Err(Error::NotAnObject),
            },
            r matches Ok(a) ==> sorted(a@.tail),
    {
        match j {
            Json::Object(m) => {
                proof {
                    lemma_object_view(*m);
                }
                Actor::from_members(m)
            },
            _ => Err(Error::NotAnObject),
        }
    }

    /// Writes the actor as one JSON object: `type`, `inbox`, `outbox`, then
    /// every other member.
    pub fn serialize(&self) -> (r: Json)
        ensures
            r@ == JsonView::Object(
                seq![
                    ("type"@, JsonView::Str(self.ty.spec_name())),
                    ("inbox"@, JsonView::Str(self.inbox@)),
                    ("outbox"@, JsonView::Str(self.outbox@)),
                ] + members_view(self.extra_fields@),
            ),
    {
        let mut m: Vec<(String, Json)> = Vec::new();
        m.push(("type".to_string(), Json::Str(self.ty.name().to_string())));
        m.push(("inbox".to_string(), Json::Str(self.inbox.clone())));
        m.push(("outbox".to_string(), Json::Str(self.outbox.clone())));
        let ghost front = members_view(m@);
        append_members(&mut m, &self.extra_fields);
        proof {
            assert(front =~= seq![
                ("type"@, JsonView::Str(self.ty.spec_name())),
                ("inbox"@, JsonView::Str(self.inbox@)),
                ("outbox"@, JsonView::Str(self.outbox@)),
            ]);
            lemma_object_view(m);
        }
        Json::Object(m)
    }

    /// Converts a document to an actor: its members must read as an actor,
    /// and the document's context is set under `@context` among the actor's
    /// other members.
    pub fn try_from(doc: JsonLdDocument) -> (r: Result<Actor, Error>)
        ensures
            res_view(r) == actor_of(doc@),
            r matches Ok(a) ==> sorted(a@.tail),
    {
        let mut actor = match Actor::from_members(&doc.extra_fields) {
            Ok(a) => a,
            Err(e) => return Err(e),
        };
        let c = match doc.context {
            Context::Simple(c) => c,
        };
        let ghost before = members_view(actor.extra_fields@);
        upsert_member(&mut actor.extra_fields, "@context", Json::Str(c));
        proof {
            lemma_upsert_sorted(before, "@context"@, JsonView::Str(c@));
        }
        Ok(actor)
    }
}

/// A document that reads as an actor converts to one with the same inbox
/// and outbox, whose other members hold the document's context under
/// `@context`.
pub proof fn lemma_conversion_fidelity(d: DocumentView)
    requires
        actor_parts(d.tail) is Ok,
    ensures
        actor_of(d) is Ok,
        actor_of(d)->Ok_0.inbox == text_member(d.tail, "inbox"@, Field::Inbox)->Ok_0,
        actor_of(d)->Ok_0.outbox == text_member(d.tail, "outbox"@, Field::Outbox)->Ok_0,
        lookup(d.tail, "inbox"@) == Some(JsonView::Str(actor_of(d)->Ok_0.inbox)),
        lookup(d.tail, "outbox"@) == Some(JsonView::Str(actor_of(d)->Ok_0.outbox)),
        lookup(actor_of(d)->Ok_0.tail, "@context"@) == Some(JsonView::Str(d.context)),
{
    lemma_lookup_upsert(actor_parts(d.tail)->Ok_0.tail, "@context"@, JsonView::Str(d.context));
}

} // verus!
