use meridian::dsl::parse;
use meridian::tag::{tag_failure, unknown_tag, TagParseError};

#[test]
fn self_closing_element_with_attrs() {
    let root = parse(r#"<Mesh path="cube.obj" scale="2" />"#).unwrap();
    assert_eq!(root.tag, "Mesh");
    assert_eq!(root.attr("path"), Some("cube.obj"));
    assert_eq!(root.attr("scale"), Some("2"));
    assert!(root.children.is_empty());
}

#[test]
fn nested_children_in_source_order() {
    let src = r#"
        <Entity name="cube">
            <Mesh path="cube.obj" />
            <RigidBody mass="1.0" />
        </Entity>
    "#;
    let root = parse(src).unwrap();
    assert_eq!(root.tag, "Entity");
    assert_eq!(root.attr("name"), Some("cube"));
    assert_eq!(root.children.len(), 2);
    assert_eq!(root.children[0].tag, "Mesh");
    assert_eq!(root.children[1].tag, "RigidBody");
}

#[test]
fn escaped_quote_in_attribute_value() {
    let root = parse(r#"<Label text="say \"hi\"" />"#).unwrap();
    assert_eq!(root.attr("text"), Some("say \"hi\""));
}

#[test]
fn mismatched_closing_tag_is_an_error() {
    let err = parse("<A><B></C></A>").unwrap_err();
    assert!(err.message.contains("mismatched closing tag"));
}

#[test]
fn duplicate_attribute_is_an_error() {
    let err = parse(r#"<Mesh path="a.obj" path="b.obj" />"#).unwrap_err();
    assert!(err.message.contains("duplicate attribute"));
}

#[test]
fn unrecognized_tag_names_parse_fine_here() {
    let root = parse(r#"<MyGameSpecificWidget hp="100" />"#).unwrap();
    assert_eq!(root.tag, "MyGameSpecificWidget");
    assert_eq!(root.attr("hp"), Some("100"));
}

#[test]
fn trailing_garbage_after_root_is_an_error() {
    let err = parse(r#"<A /> <B />"#).unwrap_err();
    assert!(err.message.contains("end of document"));
}

#[test]
fn error_messages_and_byte_offsets_are_exact() {
    let err = parse("<A><B></C></A>").unwrap_err();
    assert_eq!(err.message, "mismatched closing tag: expected '</B>', found '</C>'");
    assert_eq!(err.offset, 9);

    let err = parse(r#"<Mesh path="a.obj" path="b.obj" />"#).unwrap_err();
    assert_eq!(err.message, "duplicate attribute 'path'");
    assert_eq!(err.offset, 23);

    let err = parse(r#"<A /> <B />"#).unwrap_err();
    assert_eq!(err.message, "expected end of document after root element");
    assert_eq!(err.offset, 6);
}

#[test]
fn offsets_count_bytes_not_characters() {
    // "é" takes two bytes and "€" three, so the stray "x" after the root
    // sits at byte 16 though it is the 14th character.
    let err = parse("<A t=\"é€\" /> x").unwrap_err();
    assert_eq!(err.message, "expected end of document after root element");
    assert_eq!(err.offset, 16);
    let root = parse("<A t=\"é€\" />").unwrap();
    assert_eq!(root.attr("t"), Some("é€"));
}

#[test]
fn each_syntax_error_has_its_message() {
    assert_eq!(parse("").unwrap_err().message, "expected '<'");
    assert_eq!(parse("   ").unwrap_err().offset, 3);
    assert_eq!(parse("<1/>").unwrap_err().message, "expected an identifier");
    assert_eq!(parse("<A b c=\"\"/>").unwrap_err().message, "expected '='");
    assert_eq!(parse("<A b=c/>").unwrap_err().message, "expected '\"'");
    assert_eq!(parse("<A b=\"x").unwrap_err().message, "unterminated string literal");
    let err = parse(r#"<A b="\n" />"#).unwrap_err();
    assert_eq!(err.message, "invalid escape in string literal");
    assert_eq!(err.offset, 7);
    assert_eq!(parse("<A / >").unwrap_err().message, "expected '>'");
    assert_eq!(parse("<A b=\"1\" ?").unwrap_err().message, "expected '>'");
    let err = parse("<A><B/>").unwrap_err();
    assert_eq!(err.message, "unterminated element '<A>'");
    assert_eq!(err.offset, 7);
    assert_eq!(parse("<A></A").unwrap_err().message, "expected '>'");
}

#[test]
fn whitespace_and_names_follow_the_grammar() {
    let root = parse("\t\n<my-tag_1 data-x = \"1\"\r\n  >\n<_b/></my-tag_1 >\n").unwrap();
    assert_eq!(root.tag, "my-tag_1");
    assert_eq!(root.attrs, vec![("data-x".to_string(), "1".to_string())]);
    assert_eq!(root.children.len(), 1);
    assert_eq!(root.children[0].tag, "_b");
    let root = parse(r#"<A b="back\\slash" c="" />"#).unwrap();
    assert_eq!(root.attr("b"), Some("back\\slash"));
    assert_eq!(root.attr("c"), Some(""));
    assert_eq!(root.attr("missing"), None);
}

#[test]
fn tag_error_messages() {
    let e = unknown_tag(&"Foo".to_string());
    assert_eq!(
        e.message,
        "unknown DSL tag '<Foo>' — no type registered for it (typo, or missing DslRegistry::register call?)"
    );
    let cause = TagParseError { message: "missing attribute 'mass'".to_string() };
    assert_eq!(tag_failure(&"RigidBody".to_string(), &cause).message, "<RigidBody>: missing attribute 'mass'");
}

use meridian::tag::{invalid_attribute, required_attribute, DslTag};

#[derive(Debug, PartialEq)]
struct RigidBodyTag {
    mass: f32,
}

impl DslTag for RigidBodyTag {
    const TAG_NAME: &'static str = "RigidBody";

    fn from_attrs(attrs: &[(String, String)]) -> Result<Self, TagParseError> {
        let text = required_attribute(attrs, Self::TAG_NAME, "mass")?;
        let mass = text
            .parse::<f32>()
            .map_err(|e| invalid_attribute(Self::TAG_NAME, "mass", &e.to_string()))?;
        Ok(Self { mass })
    }
}

#[test]
fn typed_tags_read_their_attributes() {
    let root = parse(r#"<RigidBody mass="2.5" />"#).unwrap();
    assert_eq!(RigidBodyTag::from_attrs(&root.attrs), Ok(RigidBodyTag { mass: 2.5 }));
    let missing = parse(r#"<RigidBody />"#).unwrap();
    let err = RigidBodyTag::from_attrs(&missing.attrs).unwrap_err();
    assert_eq!(err.message, "RigidBody: missing attribute 'mass'");
    let bad = parse(r#"<RigidBody mass="heavy" />"#).unwrap();
    let err = RigidBodyTag::from_attrs(&bad.attrs).unwrap_err();
    assert!(err.message.starts_with("RigidBody.mass: "));
}

#[test]
fn whitespace_around_the_root_is_ignored() {
    let plain = parse("<Panel a=\"1\"><Label/></Panel>").unwrap();
    let padded = parse(" \n\t<Panel a=\"1\"><Label/></Panel>\r\n  ").unwrap();
    assert_eq!(padded.tag, plain.tag);
    assert_eq!(padded.attrs, plain.attrs);
    assert_eq!(padded.children.len(), plain.children.len());
    assert_eq!(padded.children[0].tag, plain.children[0].tag);
}

use meridian::tag::{build_tree, BuiltTree, TagTable};

#[derive(Debug, PartialEq)]
struct EntityTag {
    name: String,
}

impl DslTag for EntityTag {
    const TAG_NAME: &'static str = "Entity";

    fn from_attrs(attrs: &[(String, String)]) -> Result<Self, TagParseError> {
        let name = required_attribute(attrs, Self::TAG_NAME, "name")?;
        Ok(Self { name: name.to_string() })
    }
}

#[derive(Debug, PartialEq)]
enum Built {
    RigidBody(RigidBodyTag),
    Entity(EntityTag),
}

type Builder = Box<dyn Fn(&Vec<(String, String)>) -> Result<Built, TagParseError>>;

fn registry(names: &[&str]) -> TagTable<Builder> {
    let mut table: TagTable<Builder> = TagTable::new();
    for name in names {
        match *name {
            "RigidBody" => table.bind(
                name.to_string(),
                Box::new(|a: &Vec<(String, String)>| RigidBodyTag::from_attrs(a).map(Built::RigidBody)),
            ),
            "Entity" => table.bind(
                name.to_string(),
                Box::new(|a: &Vec<(String, String)>| EntityTag::from_attrs(a).map(Built::Entity)),
            ),
            _ => {}
        }
    }
    table
}

#[test]
fn registered_tag_builds_and_downcasts() {
    let registry = registry(&["RigidBody"]);
    let element = parse(r#"<RigidBody mass="2.5" />"#).unwrap();
    let node = build_tree(&registry, &element).unwrap();
    assert_eq!(node.tag, "RigidBody");
    assert_eq!(node.value, Built::RigidBody(RigidBodyTag { mass: 2.5 }));
}

#[test]
fn unregistered_tag_is_an_error_not_a_silent_skip() {
    let registry = registry(&["RigidBody"]);
    let element = parse(r#"<TotallyMadeUpTag />"#).unwrap();
    let err = build_tree(&registry, &element).unwrap_err();
    assert!(err.message.contains("unknown DSL tag"));
}

#[test]
fn missing_required_attribute_is_an_error() {
    let registry = registry(&["RigidBody"]);
    let element = parse(r#"<RigidBody />"#).unwrap();
    let err = build_tree(&registry, &element).unwrap_err();
    assert!(err.message.contains("missing attribute 'mass'"));
    assert_eq!(err.message, "<RigidBody>: RigidBody: missing attribute 'mass'");
}

#[test]
fn nested_custom_tags_all_build() {
    let registry = registry(&["Entity", "RigidBody"]);
    let element = parse(r#"<Entity name="crate"><RigidBody mass="1.0" /></Entity>"#).unwrap();
    let node: BuiltTree<Built> = build_tree(&registry, &element).unwrap();
    assert_eq!(node.value, Built::Entity(EntityTag { name: "crate".to_string() }));
    assert_eq!(node.children.len(), 1);
    assert_eq!(node.children[0].value, Built::RigidBody(RigidBodyTag { mass: 1.0 }));
}

#[test]
fn an_unbound_tag_deep_in_the_tree_fails_the_build() {
    let registry = registry(&["Entity", "RigidBody"]);
    let element = parse(r#"<Entity name="a"><RigidBody mass="1.0" /><Mystery /></Entity>"#).unwrap();
    let err = build_tree(&registry, &element).unwrap_err();
    assert!(err.message.starts_with("unknown DSL tag '<Mystery>'"));
}

#[test]
fn binding_a_tag_again_replaces_its_builder() {
    let mut table = registry(&["RigidBody"]);
    table.bind(
        "RigidBody".to_string(),
        Box::new(|_a: &Vec<(String, String)>| Ok(Built::Entity(EntityTag { name: "replaced".to_string() }))),
    );
    let element = parse(r#"<RigidBody />"#).unwrap();
    let node = build_tree(&table, &element).unwrap();
    assert_eq!(node.value, Built::Entity(EntityTag { name: "replaced".to_string() }));
}
