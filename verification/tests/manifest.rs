use arcane::document::{parse_xml, Node};
use arcane::errors::ManifestError;
use arcane::parser::parser::{Asset, AssetFetcher};
use arcane::parser::structs::{
    Crc, Element, LatestFileList, LatestFiles, Name, PurpleRecord, RecordElement, RecordUnion,
};
use arcane::revision_checker::Revision;

fn revision() -> Revision {
    Revision {
        list_file_url: "http://host/V_r1/LatestBuild/LatestFileList.bin".to_string(),
        url_prefix: "http://host/V_r1/LatestBuild".to_string(),
        revision: "V_r1".to_string(),
    }
}

fn fetcher() -> AssetFetcher {
    AssetFetcher::new(revision())
}

fn asset(filename: &str, size: i64, header_size: i64, compressed: i64, crc: i64, header_crc: i64) -> Asset {
    Asset {
        filename: filename.to_string(),
        size,
        header_size,
        compressed_header_size: compressed,
        crc,
        header_crc,
        already_fetched: false,
    }
}

fn text(value: &str) -> Node {
    Node::Text(value.to_string())
}

fn object(members: Vec<(&str, Node)>) -> Node {
    Node::Object(members.into_iter().map(|(name, node)| (name.to_string(), node)).collect())
}

fn number(value: i64) -> Node {
    object(vec![("#text", Node::Number(Some(value))), ("@TYPE", text("UINT"))])
}

fn name(value: &str) -> Node {
    object(vec![("#text", text(value)), ("@TYPE", text("STR"))])
}

fn record(filename: Option<&str>, size: i64) -> Node {
    let mut members = vec![
        ("CRC", number(size + 3)),
        ("CompressedHeaderSize", number(size + 2)),
        ("HeaderCRC", number(size + 4)),
        ("HeaderSize", number(size + 1)),
        ("Size", number(size)),
    ];
    if let Some(filename) = filename {
        members.push(("SrcFileName", name(filename)));
    }
    object(members)
}

fn manifest(groups: Vec<(&str, Node)>) -> Node {
    let groups = groups
        .into_iter()
        .map(|(key, records)| (key, object(vec![("RECORD", records)])))
        .collect();
    object(vec![("LatestFileList", object(groups))])
}

fn names(fetcher: &AssetFetcher) -> Vec<String> {
    fetcher.assets.iter().map(|asset| asset.filename.clone()).collect()
}

const XML: &str = r#"<?xml version="1.0" ?>
<LatestFileList>
  <A>
    <RECORD>
      <SrcFileName TYPE="STR">a.bin</SrcFileName>
      <Size TYPE="UINT">1024</Size>
      <HeaderSize TYPE="UINT">16</HeaderSize>
      <CompressedHeaderSize TYPE="UINT">12</CompressedHeaderSize>
      <CRC TYPE="UINT">4000000000</CRC>
      <HeaderCRC TYPE="UINT">77</HeaderCRC>
      <FileType TYPE="UINT">1</FileType>
      <TarFileName TYPE="STR"></TarFileName>
    </RECORD>
  </A>
  <B>
    <RECORD>
      <SrcFileName TYPE="STR">Data/b.bin</SrcFileName>
      <Size TYPE="UINT">2048</Size>
      <HeaderSize TYPE="UINT">0</HeaderSize>
      <CompressedHeaderSize TYPE="UINT">0</CompressedHeaderSize>
      <CRC TYPE="UINT">5</CRC>
      <HeaderCRC TYPE="UINT">6</HeaderCRC>
      <Name TYPE="STR">b</Name>
    </RECORD>
    <RECORD>
      <Size TYPE="UINT">10</Size>
      <HeaderSize TYPE="UINT">0</HeaderSize>
      <CompressedHeaderSize TYPE="UINT">0</CompressedHeaderSize>
      <CRC TYPE="UINT">5</CRC>
      <HeaderCRC TYPE="UINT">6</HeaderCRC>
    </RECORD>
  </B>
</LatestFileList>"#;

#[test]
fn a_manifest_lists_the_records_that_name_a_file() {
    let mut fetcher = fetcher();
    assert_eq!(fetcher.parse_and_store_elements(XML.to_string()), Ok(()));
    assert_eq!(
        Vec::from(fetcher.assets.clone()),
        vec![
            asset("a.bin", 1024, 16, 12, 4000000000, 77),
            asset("Data/b.bin", 2048, 0, 0, 5, 6),
        ]
    );
}

#[test]
fn load_index_fills_the_index() {
    let mut fetcher = fetcher();
    assert_eq!(fetcher.load_index(XML.to_string()), Ok(()));
    assert_eq!(names(&fetcher), ["a.bin", "Data/b.bin"]);
    assert!(fetcher.assets.iter().all(|asset| !asset.already_fetched));
    assert_eq!(fetcher.revision, "V_r1");
}

#[test]
fn xml_becomes_a_document_tree() {
    let document = parse_xml(
        r#"<a x="7"><b TYPE="STR">t</b><c>1</c><c>two</c><d/><e TYPE="UINT">-3</e></a>"#.to_string(),
    )
    .unwrap();
    let Node::Object(top) = document else { panic!("no object") };
    assert_eq!(top.len(), 1);
    assert_eq!(top[0].0, "a");
    let Node::Object(members) = &top[0].1 else { panic!("no object") };
    let find = |key: &str| members.iter().find(|(name, _)| name == key).map(|(_, node)| node);
    assert!(matches!(find("@x"), Some(Node::Number(Some(7)))));
    assert!(matches!(find("c"), Some(Node::List(items)) if items.len() == 2));
    assert!(matches!(find("d"), Some(Node::Object(none)) if none.is_empty()));
    let Some(Node::Object(b)) = find("b") else { panic!("no object") };
    assert!(b.iter().any(|(name, node)| name == "#text" && matches!(node, Node::Text(t) if t == "t")));
    assert!(b.iter().any(|(name, node)| name == "@TYPE" && matches!(node, Node::Text(t) if t == "STR")));
    let Some(Node::Object(e)) = find("e") else { panic!("no object") };
    assert!(e.iter().any(|(name, node)| name == "#text" && matches!(node, Node::Number(None))));
}

#[test]
fn text_that_is_no_xml_is_a_decode_error() {
    assert!(parse_xml("<a><b></a>".to_string()).is_none());
    assert!(parse_xml("".to_string()).is_none());
    let mut fetcher = fetcher();
    assert_eq!(
        fetcher.parse_and_store_elements("not xml".to_string()),
        Err(ManifestError::ManifestDecodeError)
    );
    assert!(fetcher.assets.is_empty());
}

#[test]
fn xml_of_another_shape_is_a_decode_error() {
    for xml in [
        "<Other><A><RECORD/></A></Other>",
        "<LatestFileList><A><ROW/></A></LatestFileList>",
        "<LatestFileList><A>text</A></LatestFileList>",
        "<LatestFileList><A><RECORD><Size>10</Size></RECORD></A></LatestFileList>",
        r#"<LatestFileList><A><RECORD><Size TYPE="STR">10</Size></RECORD></A></LatestFileList>"#,
        r#"<LatestFileList><A><RECORD><Size TYPE="UINT">ten</Size></RECORD></A></LatestFileList>"#,
        r#"<LatestFileList><A><RECORD><Size TYPE="UINT">-1</Size></RECORD></A></LatestFileList>"#,
        r#"<LatestFileList><A><RECORD><SrcFileName TYPE="STR">12</SrcFileName></RECORD></A></LatestFileList>"#,
        r#"<LatestFileList><A><RECORD><SrcFileName TYPE="UINT">a</SrcFileName></RECORD></A></LatestFileList>"#,
    ] {
        let mut fetcher = fetcher();
        assert_eq!(
            fetcher.parse_and_store_elements(xml.to_string()),
            Err(ManifestError::ManifestDecodeError),
            "{}",
            xml
        );
        assert!(fetcher.assets.is_empty());
    }
}

#[test]
fn an_empty_manifest_lists_nothing() {
    let mut fetcher = fetcher();
    assert_eq!(fetcher.parse_and_store_elements("<LatestFileList/>".to_string()), Ok(()));
    assert!(fetcher.assets.is_empty());
    assert_eq!(fetcher.store_document(&manifest(vec![])), Ok(()));
    assert_eq!(fetcher.store_document(&manifest(vec![("A", Node::List(vec![]))])), Ok(()));
    assert!(fetcher.assets.is_empty());
}

#[test]
fn a_single_record_gives_one_asset_or_none() {
    let mut fetcher = fetcher();
    assert_eq!(fetcher.store_document(&manifest(vec![("A", record(Some("a.bin"), 1024))])), Ok(()));
    assert_eq!(Vec::from(fetcher.assets.clone()), vec![asset("a.bin", 1024, 1025, 1026, 1027, 1028)]);
    let mut fetcher = self::fetcher();
    assert_eq!(fetcher.store_document(&manifest(vec![("A", record(None, 1024))])), Ok(()));
    assert!(fetcher.assets.is_empty());
}

#[test]
fn a_list_of_records_gives_one_asset_for_each_that_names_a_file() {
    let records = Node::List(vec![
        record(Some("1"), 1),
        record(None, 2),
        record(Some("3"), 3),
        record(None, 4),
        record(Some("5"), 5),
    ]);
    let mut fetcher = fetcher();
    assert_eq!(fetcher.store_document(&manifest(vec![("G", records)])), Ok(()));
    assert_eq!(names(&fetcher), ["1", "3", "5"]);
    assert_eq!(fetcher.assets[1], asset("3", 3, 4, 5, 6, 7));
}

#[test]
fn groups_are_listed_in_the_order_of_the_document() {
    let document = manifest(vec![
        ("Z", Node::List(vec![record(Some("z1"), 1), record(Some("z2"), 2)])),
        ("A", record(Some("a"), 3)),
        ("M", Node::List(vec![record(Some("m"), 4)])),
    ]);
    let mut fetcher = fetcher();
    assert_eq!(fetcher.store_document(&document), Ok(()));
    assert_eq!(names(&fetcher), ["z1", "z2", "a", "m"]);
    assert_eq!(fetcher.store_document(&document), Ok(()));
    assert_eq!(names(&fetcher), ["z1", "z2", "a", "m", "z1", "z2", "a", "m"]);
}

#[test]
fn a_named_record_without_a_numeric_value_is_refused() {
    let without_value = object(vec![("@TYPE", text("UINT"))]);
    for missing in ["CRC", "CompressedHeaderSize", "HeaderCRC", "HeaderSize", "Size"] {
        let Node::Object(mut members) = record(Some("a.bin"), 1) else { panic!("no object") };
        for member in members.iter_mut() {
            if member.0 == missing {
                member.1 = object(vec![("@TYPE", text("UINT"))]);
            }
        }
        let document = manifest(vec![
            ("A", record(Some("first"), 9)),
            ("B", Node::List(vec![record(Some("second"), 8), Node::Object(members)])),
        ]);
        let mut fetcher = fetcher();
        fetcher.assets.push_back(asset("kept", 0, 0, 0, 0, 0));
        assert_eq!(fetcher.store_document(&document), Err(ManifestError::MissingRequiredField));
        assert_eq!(names(&fetcher), ["kept"]);
    }
    let document = manifest(vec![(
        "A",
        object(vec![("SrcFileName", name("a.bin")), ("Size", without_value)]),
    )]);
    assert_eq!(fetcher().store_document(&document), Err(ManifestError::MissingRequiredField));
}

#[test]
fn a_named_record_without_a_numeric_field_is_refused() {
    let document = manifest(vec![("A", object(vec![("SrcFileName", name("a.bin"))]))]);
    assert_eq!(fetcher().store_document(&document), Err(ManifestError::MissingRequiredField));
    let xml = r#"<LatestFileList><A><RECORD><SrcFileName TYPE="STR">a.bin</SrcFileName>
        <Size TYPE="UINT"></Size></RECORD></A></LatestFileList>"#;
    assert_eq!(
        fetcher().parse_and_store_elements(xml.to_string()),
        Err(ManifestError::MissingRequiredField)
    );
}

#[test]
fn an_unnamed_record_may_lack_numeric_values() {
    let document = manifest(vec![(
        "A",
        Node::List(vec![
            object(vec![("Size", object(vec![("@TYPE", text("UINT"))]))]),
            object(vec![("SrcFileName", object(vec![("@TYPE", text("STR"))]))]),
            object(vec![("SrcFileName", Node::Null), ("Name", name("n"))]),
            object(vec![]),
        ]),
    )]);
    let mut fetcher = fetcher();
    assert_eq!(fetcher.store_document(&document), Ok(()));
    assert!(fetcher.assets.is_empty());
}

#[test]
fn a_decode_error_comes_before_a_missing_field() {
    let document = manifest(vec![
        ("A", object(vec![("SrcFileName", name("a.bin"))])),
        ("B", Node::Bool(true)),
    ]);
    assert_eq!(fetcher().store_document(&document), Err(ManifestError::ManifestDecodeError));
}

#[test]
fn documents_of_another_shape_are_decode_errors() {
    let good = record(Some("a"), 1);
    for document in [
        Node::Null,
        Node::List(vec![]),
        object(vec![]),
        object(vec![("LatestFileList", Node::Null)]),
        object(vec![("LatestFileList", Node::List(vec![]))]),
        object(vec![("latestfilelist", object(vec![]))]),
        object(vec![("LatestFileList", object(vec![("A", object(vec![]))]))]),
        object(vec![("LatestFileList", object(vec![("A", object(vec![("record", record(None, 1))]))]))]),
        manifest(vec![("A", Node::Null)]),
        manifest(vec![("A", text("a"))]),
        manifest(vec![("A", Node::Number(Some(1)))]),
        manifest(vec![("A", Node::List(vec![Node::Null]))]),
        manifest(vec![("A", Node::List(vec![record(Some("a"), 1), Node::List(vec![])]))]),
        manifest(vec![("A", object(vec![("Size", Node::Number(Some(1)))]))]),
        manifest(vec![("A", object(vec![("Size", object(vec![("#text", Node::Number(Some(1)))]))]))]),
        manifest(vec![("A", object(vec![("Version", text("1"))]))]),
        manifest(vec![("A", object(vec![("TarFileName", name("t"))])), ("B", Node::List(vec![object(vec![("Name", number(1))])]))]),
        manifest(vec![("A", object(vec![("TarFileName", object(vec![]))]))]),
        manifest(vec![("A", object(vec![("Size", object(vec![("#text", Node::Number(None)), ("@TYPE", text("UINT"))]))]))]),
        manifest(vec![("A", object(vec![("SrcFileName", object(vec![("#text", Node::Bool(true)), ("@TYPE", text("STR"))]))]))]),
        manifest(vec![("A", good), ("B", Node::List(vec![text("x")]))]),
    ] {
        let mut fetcher = fetcher();
        assert_eq!(fetcher.store_document(&document), Err(ManifestError::ManifestDecodeError));
        assert!(LatestFiles::decode(&document).is_err());
        assert!(fetcher.assets.is_empty());
    }
}

#[test]
fn unknown_members_and_null_members_are_passed_over() {
    let mut members = vec![("Extra", text("x")), ("Version", Node::Null), ("TarFileName", Node::Null)];
    let Node::Object(rest) = record(Some("a"), 1) else { panic!("no object") };
    let document = Node::Object(
        members
            .drain(..)
            .map(|(key, node)| (key.to_string(), node))
            .chain(rest)
            .collect(),
    );
    let mut fetcher = fetcher();
    let top = object(vec![
        ("@version", Node::Number(Some(1))),
        ("LatestFileList", object(vec![("A", object(vec![("RECORD", document), ("Other", Node::Null)]))])),
    ]);
    assert_eq!(fetcher.store_document(&top), Ok(()));
    assert_eq!(names(&fetcher), ["a"]);
}

#[test]
fn the_first_member_of_a_name_counts() {
    let record = object(vec![
        ("SrcFileName", name("first")),
        ("SrcFileName", name("second")),
        ("Size", number(1)),
        ("Size", number(2)),
        ("HeaderSize", number(3)),
        ("CompressedHeaderSize", number(4)),
        ("CRC", number(5)),
        ("HeaderCRC", number(6)),
    ]);
    let mut fetcher = fetcher();
    assert_eq!(fetcher.store_document(&manifest(vec![("A", record)])), Ok(()));
    assert_eq!(Vec::from(fetcher.assets), vec![asset("first", 1, 3, 4, 5, 6)]);
}

#[test]
fn records_decode_into_their_fields() {
    let element = RecordElement::decode(&record(Some("a.bin"), 10)).unwrap();
    assert_eq!(element.get_filename(), Some("a.bin".to_string()));
    assert_eq!(element.get_size(), Some(10));
    assert_eq!(element.get_header_size(), Some(11));
    assert_eq!(element.get_compressed_header_size(), Some(12));
    assert_eq!(element.get_crc(), Some(13));
    assert_eq!(element.get_header_crc(), Some(14));
    assert!(element.file_type.is_none() && element.name.is_none());
    let purple = PurpleRecord::decode(&object(vec![("Size", number(5))])).unwrap();
    assert_eq!(purple.get_filename(), None);
    assert_eq!(purple.get_size(), Some(5));
    assert_eq!(purple.get_crc(), None);
    assert_eq!(purple.get_header_size(), None);
    assert_eq!(purple.get_header_crc(), None);
    assert_eq!(purple.get_compressed_header_size(), None);
    assert_eq!(Crc::decode(&number(7)).unwrap().value, Some(7));
    assert_eq!(Crc::decode(&object(vec![("@TYPE", text("UINT"))])).unwrap().value, None);
    assert_eq!(Name::decode(&name("n")).unwrap().value, Some("n".to_string()));
    assert!(Name::decode(&number(7)).is_err());
    assert!(Crc::decode(&name("n")).is_err());
}

#[test]
fn a_group_is_one_record_or_a_list() {
    let single = LatestFileList::decode(&object(vec![("RECORD", record(Some("a"), 1))])).unwrap();
    assert!(matches!(single.record, RecordUnion::PurpleRecord(_)));
    let list = RecordUnion::decode(&Node::List(vec![record(Some("a"), 1), record(None, 2)])).unwrap();
    assert!(matches!(list, RecordUnion::RecordElementArray(records) if records.len() == 2));
    let decoded = LatestFiles::decode(&manifest(vec![("A", record(None, 1)), ("B", Node::List(vec![]))])).unwrap();
    assert_eq!(decoded.latest_file_list.len(), 2);
    assert_eq!(decoded.latest_file_list[0].0, "A");
    assert_eq!(decoded.latest_file_list[1].0, "B");
}

#[test]
fn add_file_to_list_passes_over_refuses_or_lists() {
    let mut fetcher = fetcher();
    let unnamed = RecordElement::decode(&record(None, 1)).unwrap();
    assert_eq!(fetcher.add_file_to_list(&unnamed), Ok(()));
    assert!(fetcher.assets.is_empty());
    let partial = PurpleRecord::decode(&object(vec![("SrcFileName", name("p")), ("Size", number(1))])).unwrap();
    assert_eq!(fetcher.add_file_to_list(&partial), Err(ManifestError::MissingRequiredField));
    assert!(fetcher.assets.is_empty());
    let whole = PurpleRecord::decode(&record(Some("w"), 1)).unwrap();
    assert_eq!(fetcher.add_file_to_list(&whole), Ok(()));
    assert_eq!(Vec::from(fetcher.assets), vec![asset("w", 1, 2, 3, 4, 5)]);
}

#[test]
fn file_names_stay_unique_where_the_manifest_has_them_unique() {
    let mut fetcher = fetcher();
    assert_eq!(fetcher.parse_and_store_elements(XML.to_string()), Ok(()));
    let mut seen = names(&fetcher);
    seen.sort();
    seen.dedup();
    assert_eq!(seen.len(), fetcher.assets.len());
}

#[test]
fn a_fetcher_starts_empty_under_its_revision() {
    let fetcher = fetcher();
    assert!(fetcher.assets.is_empty());
    assert_eq!(fetcher.revision, "V_r1");
    assert_eq!(fetcher.url_prefix, "http://host/V_r1/LatestBuild");
    assert_eq!(fetcher.list_file_url, "http://host/V_r1/LatestBuild/LatestFileList.bin");
    assert_eq!(fetcher.save_path, "assets/V_r1/");
    let mut nameless = revision();
    nameless.revision = String::new();
    assert_eq!(AssetFetcher::new(nameless).save_path, "assets//");
}

#[test]
fn the_xml_manifest_stands_beside_the_binary_one() {
    assert_eq!(fetcher().xml_url(), "http://host/V_r1/LatestBuild/LatestFileList.xml");
    let mut fetcher = fetcher();
    fetcher.list_file_url = "LatestFileList.bin/x/LatestFileList.binLatestFileList.bin".to_string();
    assert_eq!(fetcher.xml_url(), "LatestFileList.xml/x/LatestFileList.xmlLatestFileList.xml");
    fetcher.list_file_url = "http://host/other.bin".to_string();
    assert_eq!(fetcher.xml_url(), "http://host/other.bin");
}

#[test]
fn a_download_goes_from_the_prefix_to_the_save_directory() {
    let request = fetcher().fetch_asset(&asset("Data/Root.wad", 1, 2, 3, 4, 5));
    assert_eq!(request.url, "http://host/V_r1/LatestBuild/Data/Root.wad");
    assert_eq!(request.save_path, "assets/V_r1/Data/Root.wad");
}

#[test]
fn the_default_asset_is_empty() {
    assert_eq!(Asset::default(), asset("", 0, 0, 0, 0, 0));
}
