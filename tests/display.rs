use registry::{Data, WideString};

fn wide(s: &str) -> WideString {
    WideString::from_str(s).unwrap()
}

#[test]
fn display_numbers() {
    assert_eq!(Data::U32(0x1234FEFE).to_string(), "0x000000001234fefe");
    assert_eq!(Data::U32BE(0x1234FEFE).to_string(), "0x000000001234fefe");
    assert_eq!(Data::U32(0).to_string(), "0x0000000000000000");
    assert_eq!(
        Data::U64(0x1234FEFE_1234FEFE).to_string(),
        "0x00000000000000001234fefe1234fefe"
    );
    assert_eq!(Data::U64(255).to_string(), "0x000000000000000000000000000000ff");
}

#[test]
fn display_binary() {
    assert_eq!(Data::Binary(vec![1, 2, 3, 4, 255]).to_string(), "<01 02 03 04 ff>");
    assert_eq!(Data::Binary(vec![]).to_string(), "<>");
    assert_eq!(Data::Binary(vec![0xab]).to_string(), "<ab>");
}

#[test]
fn display_text() {
    assert_eq!(Data::String(wide("Meow meow")).to_string(), "Meow meow");
    assert_eq!(Data::ExpandString(wide("%PATH%")).to_string(), "%PATH%");
    assert_eq!(
        Data::MultiString(vec![wide("Meow meow"), wide("Woop woop")]).to_string(),
        "[\"Meow meow\", \"Woop woop\"]"
    );
    assert_eq!(Data::MultiString(vec![wide("say \"hi\"")]).to_string(), "[\"say \\\"hi\\\"\"]");
    assert_eq!(Data::MultiString(vec![]).to_string(), "[]");
}

#[test]
fn display_markers() {
    assert_eq!(Data::Untyped.to_string(), "<None>");
    assert_eq!(Data::Link.to_string(), "<Link>");
    assert_eq!(Data::ResourceList.to_string(), "<Resource List>");
    assert_eq!(Data::FullResourceDescriptor.to_string(), "<Full Resource Descriptor>");
    assert_eq!(
        Data::ResourceRequirementsList.to_string(),
        "<Resource Requirements List>"
    );
}
