use activitypub_jsonld::actor;
use activitypub_jsonld::actor::ActorType;
use activitypub_jsonld::json::{FromJson, Json, ToJson};
use activitypub_jsonld::{
    Context, Error, Field, JsonLdDocument, Link, LinkType, Object, ObjectOrLink, ObjectType,
};

const EXAMPLE_1: &str = r#"{
  "@context": "https://www.w3.org/ns/activitystreams",
  "type": "Person",
  "id": "https://social.example/alyssa/",
  "name": "Alyssa P. Hacker",
  "preferredUsername": "alyssa",
  "summary": "Lisp enthusiast hailing from MIT",
  "inbox": "https://social.example/alyssa/inbox/",
  "outbox": "https://social.example/alyssa/outbox/",
  "followers": "https://social.example/alyssa/followers/",
  "following": "https://social.example/alyssa/following/",
  "liked": "https://social.example/alyssa/liked/"
}"#;

const EXAMPLE_16: &str = r#"{
  "@context": "https://www.w3.org/ns/activitystreams",
  "type": "Create",
  "id": "https://example.net/~mallory/87374",
  "actor": "https://example.net/~mallory",
  "object": {
    "id": "https://example.com/~mallory/note/72",
    "type": "Note",
    "attributedTo": "https://example.net/~mallory",
    "content": "This is a note",
    "published": "2015-02-10T15:04:55Z",
    "to": ["https://example.org/~john/"],
    "cc": ["https://example.com/~erik/followers",
           "https://www.w3.org/ns/activitystreams#Public"]
  },
  "published": "2015-02-10T15:04:55Z",
  "to": ["https://example.org/~john/"],
  "cc": ["https://example.com/~erik/followers",
         "https://www.w3.org/ns/activitystreams#Public"]
}"#;

fn tree(v: serde_json::Value) -> Json {
    match v {
        serde_json::Value::Null => Json::Null,
        serde_json::Value::Bool(b) => Json::Bool(b),
        serde_json::Value::Number(n) => Json::Number(n.to_string()),
        serde_json::Value::String(s) => Json::Str(s),
        serde_json::Value::Array(items) => Json::Array(items.into_iter().map(tree).collect()),
        serde_json::Value::Object(m) => Json::Object(m.into_iter().map(|(k, v)| (k, tree(v))).collect()),
    }
}

fn value(j: &Json) -> serde_json::Value {
    match j {
        Json::Null => serde_json::Value::Null,
        Json::Bool(b) => serde_json::Value::Bool(*b),
        Json::Number(n) => serde_json::Value::Number(n.parse().unwrap()),
        Json::Str(s) => serde_json::Value::String(s.clone()),
        Json::Array(items) => serde_json::Value::Array(items.iter().map(value).collect()),
        Json::Object(m) => serde_json::Value::Object(m.iter().map(|(k, v)| (k.clone(), value(v))).collect()),
    }
}

fn parse_text(text: &str) -> Json {
    tree(serde_json::from_str(text).unwrap())
}

fn text(j: &Json) -> String {
    serde_json::to_string(&value(j)).unwrap()
}

fn str_value(s: &str) -> Json {
    Json::Str(s.to_string())
}

fn object_of(members: Vec<(&str, Json)>) -> Json {
    Json::Object(members.into_iter().map(|(k, v)| (k.to_string(), v)).collect())
}

#[test]
fn core_example_1_roundtrip() {
    let document = actor::JsonLdDocument::parse(&parse_text(EXAMPLE_1)).unwrap();
    let serialized = text(&document.serialize());
    let deserialized = actor::JsonLdDocument::parse(&parse_text(&serialized)).unwrap();
    assert_eq!(deserialized, document);
}

#[test]
fn core_example_1_get_field() {
    let document = actor::JsonLdDocument::parse(&parse_text(EXAMPLE_1)).unwrap();
    assert_eq!(
        document.get_field::<String>("inbox").unwrap(),
        "https://social.example/alyssa/inbox/"
    );
}

#[test]
fn example_1_into_actor() {
    let document = actor::JsonLdDocument::parse(&parse_text(EXAMPLE_1)).unwrap();
    let person = actor::Actor::try_from(document).unwrap();
    assert_eq!(person.inbox, "https://social.example/alyssa/inbox/");
}

#[test]
fn lib_example_1_roundtrip() {
    let document = JsonLdDocument::parse(&parse_text(EXAMPLE_1)).unwrap();
    let serialized = text(&document.serialize());
    let deserialized = JsonLdDocument::parse(&parse_text(&serialized)).unwrap();
    assert_eq!(deserialized, document);
}

#[test]
fn lib_example_1_get_field() {
    let document = JsonLdDocument::parse(&parse_text(EXAMPLE_1)).unwrap();
    assert_eq!(
        document.object.get_field::<String>("inbox").unwrap(),
        "https://social.example/alyssa/inbox/"
    );
}

#[test]
fn example_1_set_field() {
    let mut document = JsonLdDocument::parse(&parse_text(EXAMPLE_1)).unwrap();
    assert_eq!(
        document.object.get_field::<String>("inbox").unwrap(),
        "https://social.example/alyssa/inbox/"
    );
    let new_val = "https://social.example/brenda/inbox/".to_string();
    document.object.set_field("inbox", &new_val);
    assert_eq!(document.object.get_field::<String>("inbox").unwrap(), new_val);
}

#[test]
fn example_16_get_field() {
    let document = JsonLdDocument::parse(&parse_text(EXAMPLE_16)).unwrap();
    let inner_object: Object = document.object.get_field("object").unwrap();
    assert_eq!(inner_object.ty, ObjectType::Note);
    assert_eq!(
        inner_object.get_field::<String>("content").unwrap(),
        "This is a note"
    );
}

#[test]
fn example_16_extract() {
    let document = JsonLdDocument::parse(&parse_text(EXAMPLE_16)).unwrap();
    let inner: Json = document.object.extract().unwrap();
    let member = match &inner {
        Json::Object(m) => m.iter().find(|(k, _)| k == "object").map(|(_, v)| v).unwrap(),
        _ => panic!(),
    };
    let inner_object = match ObjectOrLink::from_json(member).unwrap() {
        ObjectOrLink::Object(object) => object,
        _ => panic!(),
    };
    assert_eq!(inner_object.ty, ObjectType::Note);
}

#[test]
fn person_scenario_converts_to_actor() {
    let input = r#"{"@context":"https://www.w3.org/ns/activitystreams","type":"Person","inbox":"https://ex/ib/","outbox":"https://ex/ob/"}"#;
    let document = JsonLdDocument::parse(&parse_text(input)).unwrap();
    assert_eq!(document.object.ty, ObjectType::Person);
    let generic = actor::JsonLdDocument::parse(&parse_text(input)).unwrap();
    let person = actor::Actor::try_from(generic).unwrap();
    assert_eq!(person.ty, actor::ActorType::Person);
    assert_eq!(person.inbox, "https://ex/ib/");
    assert_eq!(person.outbox, "https://ex/ob/");
    assert_eq!(
        person.extra_fields,
        vec![("@context".to_string(), str_value("https://www.w3.org/ns/activitystreams"))]
    );
}

#[test]
fn create_scenario_reads_nested_note() {
    let input = r#"{"@context":"https://www.w3.org/ns/activitystreams","type":"Create","object":{"type":"Note","content":"This is a note"}}"#;
    let document = JsonLdDocument::parse(&parse_text(input)).unwrap();
    assert_eq!(document.object.ty, ObjectType::Create);
    let note: Object = document.object.get_field("object").unwrap();
    assert_eq!(note.ty, ObjectType::Note);
    assert_eq!(note.id, None);
    assert_eq!(note.get_field::<String>("content"), Some("This is a note".to_string()));
}

#[test]
fn get_field_absent_gives_nothing() {
    let document = JsonLdDocument::parse(&parse_text(EXAMPLE_1)).unwrap();
    assert_eq!(document.object.get_field::<String>("nothingHere"), None);
    assert_eq!(document.object.get_field::<String>("type"), None);
    assert_eq!(document.object.get_field::<String>("@context"), None);
}

#[test]
fn get_field_wrong_type_gives_nothing() {
    let document = JsonLdDocument::parse(&parse_text(EXAMPLE_16)).unwrap();
    assert_eq!(document.object.get_field::<String>("to"), None);
    assert_eq!(document.object.get_field::<bool>("actor"), None);
    assert!(document.object.get_field::<Object>("actor").is_none());
}

#[test]
fn set_then_get_new_field() {
    let mut document = JsonLdDocument::parse(&parse_text(EXAMPLE_1)).unwrap();
    document.object.set_field("sensitive", &true);
    assert_eq!(document.object.get_field::<bool>("sensitive"), Some(true));
    document.object.set_field("sensitive", &false);
    assert_eq!(document.object.get_field::<bool>("sensitive"), Some(false));
    assert_eq!(document.object.get_field::<String>("name"), Some("Alyssa P. Hacker".to_string()));
}

#[test]
fn set_field_named_like_typed_field_leaves_it() {
    let mut document = JsonLdDocument::parse(&parse_text(EXAMPLE_1)).unwrap();
    document.object.set_field("type", &"Note".to_string());
    assert_eq!(document.object.ty, ObjectType::Person);
    assert_eq!(document.object.get_field::<String>("type"), Some("Note".to_string()));
}

#[test]
fn core_set_then_get() {
    let mut document = actor::JsonLdDocument::parse(&parse_text(EXAMPLE_1)).unwrap();
    let v = "https://social.example/brenda/inbox/".to_string();
    document.set_field("inbox", &v);
    assert_eq!(document.get_field::<String>("inbox"), Some(v));
    assert_eq!(document.context, Context::Simple("https://www.w3.org/ns/activitystreams".to_string()));
}

#[test]
fn serialize_puts_typed_fields_first() {
    let input = object_of(vec![
        ("name", str_value("n")),
        ("type", str_value("Note")),
        ("@context", str_value("c")),
        ("id", str_value("i")),
    ]);
    let document = JsonLdDocument::parse(&input).unwrap();
    assert_eq!(
        document.serialize(),
        object_of(vec![
            ("@context", str_value("c")),
            ("id", str_value("i")),
            ("type", str_value("Note")),
            ("name", str_value("n")),
        ])
    );
}

#[test]
fn null_id_reads_as_absent() {
    let input = object_of(vec![("type", str_value("Note")), ("id", Json::Null)]);
    let object = Object::parse(&input).unwrap();
    assert_eq!(object.id, None);
    assert_eq!(object.serialize(), object_of(vec![("type", str_value("Note"))]));
}

#[test]
fn parse_errors() {
    assert_eq!(JsonLdDocument::parse(&Json::Null), Err(Error::NotAnObject));
    assert_eq!(
        JsonLdDocument::parse(&object_of(vec![("type", str_value("Note"))])),
        Err(Error::Missing(Field::Context))
    );
    assert_eq!(
        JsonLdDocument::parse(&object_of(vec![("@context", Json::Array(vec![])), ("type", str_value("Note"))])),
        Err(Error::Invalid(Field::Context))
    );
    assert_eq!(
        JsonLdDocument::parse(&object_of(vec![("@context", str_value("c"))])),
        Err(Error::Missing(Field::Type))
    );
    assert_eq!(
        JsonLdDocument::parse(&object_of(vec![("@context", str_value("c")), ("type", str_value("note"))])),
        Err(Error::Invalid(Field::Type))
    );
    assert_eq!(
        Object::parse(&object_of(vec![("type", str_value("Note")), ("id", Json::Bool(true))])),
        Err(Error::Invalid(Field::Id))
    );
}

#[test]
fn link_parse_and_errors() {
    let input = object_of(vec![
        ("type", str_value("Mention")),
        ("href", str_value("https://ex/u")),
        ("name", str_value("@u")),
    ]);
    let link = Link::parse(&input).unwrap();
    assert_eq!(link.ty, LinkType::Mention);
    assert_eq!(link.href, "https://ex/u");
    assert_eq!(link.id, None);
    assert_eq!(link.get_field::<String>("name"), Some("@u".to_string()));
    assert_eq!(link.serialize(), input);
    assert_eq!(
        Link::parse(&object_of(vec![("type", str_value("Link"))])),
        Err(Error::Missing(Field::Href))
    );
    assert_eq!(
        Link::parse(&object_of(vec![("type", str_value("Link")), ("href", Json::Null)])),
        Err(Error::Invalid(Field::Href))
    );
    assert_eq!(
        Link::parse(&object_of(vec![("type", str_value("Note")), ("href", str_value("h"))])),
        Err(Error::Invalid(Field::Type))
    );
}

#[test]
fn union_prefers_object_then_link() {
    let note = object_of(vec![("type", str_value("Note"))]);
    assert!(matches!(ObjectOrLink::from_json(&note), Some(ObjectOrLink::Object(_))));
    let link = object_of(vec![("type", str_value("Link")), ("href", str_value("h"))]);
    match ObjectOrLink::from_json(&link) {
        Some(ObjectOrLink::Link(l)) => assert_eq!(l.ty, LinkType::Link),
        _ => panic!(),
    }
    assert!(ObjectOrLink::from_json(&object_of(vec![("href", str_value("h"))])).is_none());
    assert_eq!(ObjectOrLink::from_json(&note).unwrap().to_json(), note);
}

#[test]
fn actor_conversion_errors() {
    let doc = |members: Vec<(&str, Json)>| {
        let mut all = vec![("@context", str_value("c"))];
        all.extend(members);
        actor::JsonLdDocument::parse(&object_of(all)).unwrap()
    };
    assert_eq!(
        actor::Actor::try_from(doc(vec![("inbox", str_value("i")), ("outbox", str_value("o"))])),
        Err(Error::Missing(Field::Type))
    );
    assert_eq!(
        actor::Actor::try_from(doc(vec![("type", str_value("Note")), ("inbox", str_value("i")), ("outbox", str_value("o"))])),
        Err(Error::Invalid(Field::Type))
    );
    assert_eq!(
        actor::Actor::try_from(doc(vec![("type", str_value("Group")), ("outbox", str_value("o"))])),
        Err(Error::Missing(Field::Inbox))
    );
    assert_eq!(
        actor::Actor::try_from(doc(vec![("type", str_value("Group")), ("inbox", Json::Null), ("outbox", str_value("o"))])),
        Err(Error::Invalid(Field::Inbox))
    );
    assert_eq!(
        actor::Actor::try_from(doc(vec![("type", str_value("Group")), ("inbox", str_value("i"))])),
        Err(Error::Missing(Field::Outbox))
    );
    assert_eq!(
        actor::Actor::try_from(doc(vec![("type", str_value("Group")), ("inbox", str_value("i")), ("outbox", Json::Bool(false))])),
        Err(Error::Invalid(Field::Outbox))
    );
}

#[test]
fn actor_keeps_other_members_and_context() {
    let document = actor::JsonLdDocument::parse(&parse_text(EXAMPLE_1)).unwrap();
    let person = actor::Actor::try_from(document).unwrap();
    assert_eq!(person.outbox, "https://social.example/alyssa/outbox/");
    let serialized = person.serialize();
    let back = actor::Actor::parse(&serialized).unwrap();
    assert_eq!(back, person);
    let context = person
        .extra_fields
        .iter()
        .find(|(k, _)| k == "@context")
        .map(|(_, v)| v);
    assert_eq!(context, Some(&str_value("https://www.w3.org/ns/activitystreams")));
    assert!(person.extra_fields.iter().any(|(k, _)| k == "id"));
}

#[test]
fn default_context_is_activity_streams() {
    assert_eq!(
        Context::default(),
        Context::Simple("https://www.w3.org/ns/activitystreams".to_string())
    );
}

#[test]
fn type_names_round_trip() {
    for t in [ObjectType::OrderedCollectionPage, ObjectType::TentativeReject, ObjectType::Note] {
        assert_eq!(ObjectType::from_name(&t.name().to_string()), Some(t));
    }
    assert_eq!(ObjectType::from_name(&"Nope".to_string()), None);
    assert_eq!(LinkType::from_name(&"Mention".to_string()), Some(LinkType::Mention));
    assert_eq!(actor::ActorType::from_name(&"Service".to_string()), Some(actor::ActorType::Service));
}

#[test]
fn json_values_convert_as_themselves() {
    let j = parse_text(r#"{"a":[1,2.5,null,true],"b":{"c":"d"}}"#);
    assert_eq!(Json::from_json(&j), Some(parse_text(r#"{"a":[1,2.5,null,true],"b":{"c":"d"}}"#)));
    assert_eq!(j.to_json(), j.copy());
    assert_eq!(String::from_json(&Json::Number("3".to_string())), None);
}

#[test]
fn link_set_then_get() {
    let input = object_of(vec![("type", str_value("Link")), ("href", str_value("h"))]);
    let mut link = Link::parse(&input).unwrap();
    link.set_field("rel", &"canonical".to_string());
    assert_eq!(link.get_field::<String>("rel"), Some("canonical".to_string()));
    assert_eq!(link.href, "h");
    assert_eq!(
        link.serialize(),
        object_of(vec![
            ("type", str_value("Link")),
            ("href", str_value("h")),
            ("rel", str_value("canonical")),
        ])
    );
}

#[test]
fn extract_gives_the_other_members() {
    let input = object_of(vec![
        ("type", str_value("Note")),
        ("content", str_value("x")),
        ("id", str_value("i")),
        ("n", Json::Number("7".to_string())),
    ]);
    let object = Object::parse(&input).unwrap();
    assert_eq!(
        object.extract::<Json>(),
        Some(object_of(vec![("content", str_value("x")), ("n", Json::Number("7".to_string()))]))
    );
    assert!(object.extract::<Object>().is_none());
}

#[test]
fn set_fields_in_either_order_give_equal_objects() {
    let mut a = JsonLdDocument::parse(&parse_text(EXAMPLE_1)).unwrap();
    let mut b = JsonLdDocument::parse(&parse_text(EXAMPLE_1)).unwrap();
    a.object.set_field("zeta", &"1".to_string());
    a.object.set_field("alpha", &true);
    b.object.set_field("alpha", &true);
    b.object.set_field("zeta", &"1".to_string());
    assert_eq!(a, b);
    assert_eq!(a.serialize(), b.serialize());
}

#[test]
fn parse_sorts_members_and_keeps_the_last_of_a_name() {
    let input = object_of(vec![
        ("type", str_value("Note")),
        ("zeta", str_value("z")),
        ("alpha", str_value("first")),
        ("Beta", str_value("b")),
        ("alpha", str_value("second")),
    ]);
    let object = Object::parse(&input).unwrap();
    assert_eq!(
        object.extra_fields,
        vec![
            ("Beta".to_string(), str_value("b")),
            ("alpha".to_string(), str_value("second")),
            ("zeta".to_string(), str_value("z")),
        ]
    );
    assert_eq!(object.get_field::<String>("alpha"), Some("second".to_string()));
}

#[test]
fn set_field_inserts_in_name_order() {
    let input = object_of(vec![("type", str_value("Note")), ("b", Json::Null), ("d", Json::Null)]);
    let mut object = Object::parse(&input).unwrap();
    object.set_field("c", &true);
    object.set_field("a", &false);
    object.set_field("e", &true);
    object.set_field("bb", &true);
    let names: Vec<&str> = object.extra_fields.iter().map(|(k, _)| k.as_str()).collect();
    assert_eq!(names, vec!["a", "b", "bb", "c", "d", "e"]);
}

#[test]
fn vocabulary_values_convert_both_ways() {
    assert_eq!(ObjectType::from_json(&str_value("Tombstone")), Some(ObjectType::Tombstone));
    assert_eq!(ObjectType::from_json(&Json::Bool(true)), None);
    assert_eq!(ObjectType::Article.to_json(), str_value("Article"));
    assert_eq!(LinkType::from_json(&str_value("Note")), None);
    assert_eq!(ActorType::from_json(&str_value("Organisation")), Some(ActorType::Organisation));
    assert_eq!(ActorType::Application.to_json(), str_value("Application"));
    assert_eq!(Context::from_json(&str_value("c")), Some(Context::Simple("c".to_string())));
    assert_eq!(Context::Simple("c".to_string()).to_json(), str_value("c"));
}

#[test]
fn document_extract_merges_typed_fields_back() {
    let document = JsonLdDocument::parse(&parse_text(EXAMPLE_16)).unwrap();
    let whole: Json = document.extract().unwrap();
    assert_eq!(whole, document.serialize());
    let ty: ObjectType = match &whole {
        Json::Object(m) => ObjectType::from_json(&m.iter().find(|(k, _)| k == "type").unwrap().1).unwrap(),
        _ => panic!(),
    };
    assert_eq!(ty, ObjectType::Create);
    let generic = actor::JsonLdDocument::parse(&parse_text(EXAMPLE_1)).unwrap();
    let back: actor::JsonLdDocument = match generic.extract::<Json>() {
        Some(j) => actor::JsonLdDocument::parse(&j).unwrap(),
        None => panic!(),
    };
    assert_eq!(back, generic);
}

#[test]
fn unsigned_numbers_convert_both_ways() {
    assert_eq!(u64::from_json(&Json::Number("42".to_string())), Some(42));
    assert_eq!(u64::from_json(&Json::Number("0".to_string())), Some(0));
    assert_eq!(
        u64::from_json(&Json::Number("18446744073709551615".to_string())),
        Some(u64::MAX)
    );
    assert_eq!(u64::from_json(&Json::Number("18446744073709551616".to_string())), None);
    assert_eq!(u64::from_json(&Json::Number("-1".to_string())), None);
    assert_eq!(u64::from_json(&Json::Number("2.5".to_string())), None);
    assert_eq!(u64::from_json(&Json::Number("".to_string())), None);
    assert_eq!(u64::from_json(&str_value("7")), None);
    assert_eq!(1234567u64.to_json(), Json::Number("1234567".to_string()));
    assert_eq!(u64::MAX.to_json(), Json::Number("18446744073709551615".to_string()));
    let mut document = JsonLdDocument::parse(&parse_text(EXAMPLE_1)).unwrap();
    document.object.set_field("totalItems", &907u64);
    assert_eq!(document.object.get_field::<u64>("totalItems"), Some(907));
    let reparsed = JsonLdDocument::parse(&parse_text(&text(&document.serialize()))).unwrap();
    assert_eq!(reparsed.object.get_field::<u64>("totalItems"), Some(907));
}
