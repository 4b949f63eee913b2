use exabind::parser::xml::parse_cdata;
use exabind::parser::xml::parse_xml_tag;
use exabind::parser::xml::Attribute;
use exabind::parser::xml::NodeContent;
use exabind::parser::xml::XmlTag;
use exabind::text::find_name_end;

#[test]
fn test_cdata() {
    for input in [
        "<![CDATA[This is a CDATA]]>",
        r#"<![CDATA[

                This is a CDATA

            ]]>"#,
    ] {
        let result = parse_cdata(input);
        assert_eq!(result, Some("This is a CDATA".to_string()));
    }
}

#[test]
fn parse_name() {
    let input = "hello></hello>";
    let end = find_name_end(input, 0);
    assert_eq!(&input[..end], "hello");
    // "></hello>" remains
    assert_eq!(end, 5);
}

#[test]
fn parse_attribute_value() {
    let input = r#""This is a value" "#;
    let res = exabind::parser::xml::parse_attribute_value(input, 0);
    let (value, pos) = res.expect("value expected");
    assert_eq!(value, "This is a value");
    // " " remains
    assert_eq!(pos, input.chars().count() - 1);
}

#[test]
fn parse_attribute() {
    for input in [r#"name="value" "#, r#"name =  "value" "#] {
        let res = exabind::parser::xml::parse_attribute(input, 0);
        let (attribute, pos) = res.expect("attribute expected");
        assert_eq!(attribute, Attribute::new("name", "value"));
        // " " remains
        assert_eq!(pos, input.chars().count() - 1);
    }

    let input = r#" name =  "value"></hello>"#;
    let res = exabind::parser::xml::parse_attribute(input, 0);
    let (attribute, pos) = res.expect("attribute expected");
    assert_eq!(attribute, Attribute::new("name", "value"));
    // "></hello>" remains
    assert_eq!(pos, input.chars().count() - 9);
}

#[test]
fn parse_self_contained_xml_tag() {
    let input = "<tag></tag>";
    let (tag, pos) = parse_xml_tag(input, 0).expect("tag expected");
    assert_eq!(pos, input.chars().count());
    assert_eq!(tag, XmlTag::new("tag", vec![]));

    let input = "<tag/>";
    let (tag, pos) = parse_xml_tag(input, 0).expect("tag expected");
    assert_eq!(pos, input.chars().count());
    assert_eq!(tag, XmlTag::new("tag", vec![]));

    let input = "<tag key=\"value\"/>";
    let (tag, pos) = parse_xml_tag(input, 0).expect("tag expected");
    assert_eq!(pos, input.chars().count());
    assert_eq!(tag, XmlTag::new("tag", vec![Attribute::new("key", "value")]));

    let input = r#"<keymap version="1" name="Eclipse copy" parent="Eclipse"/>"#;
    let (tag, pos) = parse_xml_tag(input, 0).expect("tag expected");
    assert_eq!(pos, input.chars().count());
    assert_eq!(
        tag,
        XmlTag::new(
            "keymap",
            vec![
                Attribute::new("version", "1"),
                Attribute::new("name", "Eclipse copy"),
                Attribute::new("parent", "Eclipse"),
            ]
        )
    );
}

#[test]
fn parse_tag_with_text() {
    let input = "<tag key=\"value\">This is a text</tag>";
    let (tag, pos) = parse_xml_tag(input, 0).expect("tag expected");
    assert_eq!(pos, input.chars().count());
    assert_eq!(
        tag,
        XmlTag::with_text("tag", vec![Attribute::new("key", "value")], "This is a text")
    );

    let input = r#"<tag>
            text
        </tag>"#;
    let (tag, pos) = parse_xml_tag(input, 0).expect("tag expected");
    assert_eq!(pos, input.chars().count());
    assert_eq!(tag, XmlTag::with_text("tag", Vec::new(), "text"));
}

#[test]
fn parse_tag_with_children() {
    let input = "<child key=\"value\">\n        </child>";
    let (tag, pos) = parse_xml_tag(input, 0).expect("tag expected");
    assert_eq!(pos, input.chars().count());
    assert_eq!(tag, XmlTag::new("child", vec![Attribute::new("key", "value")]));

    let input = r#"<tag> <child/></tag>"#;
    let (tag, pos) = parse_xml_tag(input, 0).expect("tag expected");
    assert_eq!(pos, input.chars().count());
    assert_eq!(
        tag,
        XmlTag {
            name: "tag".to_string(),
            attributes: Vec::new(),
            content: Some(NodeContent::Tags(vec![XmlTag {
                name: "child".to_string(),
                attributes: vec![],
                content: None,
            }])),
        }
    );
}

#[test]
fn xml_test_jetbrains_xml_parser() {
    let input = r#"<keymap ></keymap>"#;
    let (tag, pos) = parse_xml_tag(input, 0).expect("tag expected");
    assert_eq!(pos, input.chars().count());
    assert_eq!(tag, XmlTag::new("keymap", vec![]));

    let input = r#"<keymap version="1" name="Eclipse copy" parent="Eclipse"></keymap>"#;
    let (tag, pos) = parse_xml_tag(input, 0).expect("tag expected");
    assert_eq!(pos, input.chars().count());
    assert_eq!(
        tag,
        XmlTag::new(
            "keymap",
            vec![
                Attribute::new("version", "1"),
                Attribute::new("name", "Eclipse copy"),
                Attribute::new("parent", "Eclipse"),
            ]
        )
    );
}

#[test]
fn ill_formed_tag_fails() {
    assert!(parse_xml_tag("<tag", 0).is_none());
    assert!(parse_xml_tag("no tag here", 0).is_none());
    assert!(parse_xml_tag("<tag>unclosed", 0).is_none());
    assert!(exabind::parser::xml::parse_xml("").is_none());
}
