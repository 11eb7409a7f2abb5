use qbl_xml::FileType;

#[test]
fn from_extension_known_kinds() {
    assert_eq!(FileType::from_extension("qbl"), Some(FileType::Qbl));
    assert_eq!(FileType::from_extension("xml"), Some(FileType::Xml));
}

#[test]
fn from_extension_unknown_kinds() {
    assert_eq!(FileType::from_extension(""), None);
    assert_eq!(FileType::from_extension("txt"), None);
    assert_eq!(FileType::from_extension("QBL"), None);
    assert_eq!(FileType::from_extension("xmll"), None);
}

#[test]
fn other_swaps_the_kind() {
    assert_eq!(FileType::Qbl.other(), FileType::Xml);
    assert_eq!(FileType::Xml.other(), FileType::Qbl);
}

#[test]
fn extension_names_the_kind() {
    assert_eq!(FileType::Qbl.extension(), "qbl");
    assert_eq!(FileType::Xml.extension(), "xml");
    assert_eq!(FileType::from_extension(FileType::Qbl.extension()), Some(FileType::Qbl));
    assert_eq!(FileType::from_extension(FileType::Xml.extension()), Some(FileType::Xml));
}
