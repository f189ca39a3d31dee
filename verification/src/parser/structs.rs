use vstd::prelude::*;

use crate::document::{items_of, lemma_list_view, lemma_object_view, members_of, Node, NodeView};
use crate::errors::ManifestError;
use crate::text::str_eq;

verus! {

/// What the parser reads from one record of the manifest. A numeric field
/// is `None` where the record lacks it or where it carries no value.
pub struct RecordView {
    pub filename: Option<Seq<char>>,
    pub size: Option<i64>,
    pub header_size: Option<i64>,
    pub compressed_header_size: Option<i64>,
    pub crc: Option<i64>,
    pub header_crc: Option<i64>,
}

/// One record of the manifest, whatever its shape.
pub trait Element {
    /// The record as the parser reads it.
    spec fn record(&self) -> RecordView;

    fn get_filename(&self) -> (filename: Option<String>)
        ensures
            match filename {
                Some(text) => self.record().filename == Some(text@),
                None => self.record().filename is None,
            },
    ;

    fn get_size(&self) -> (size: Option<i64>)
        ensures
            size == self.record().size,
    ;

    fn get_header_size(&self) -> (header_size: Option<i64>)
        ensures
            header_size == self.record().header_size,
    ;

    fn get_compressed_header_size(&self) -> (compressed_header_size: Option<i64>)
        ensures
            compressed_header_size == self.record().compressed_header_size,
    ;

    fn get_crc(&self) -> (crc: Option<i64>)
        ensures
            crc == self.record().crc,
    ;

    fn get_header_crc(&self) -> (header_crc: Option<i64>)
        ensures
            header_crc == self.record().header_crc,
    ;
}

/// The type that a numeric field declares.
#[derive(Debug, Clone, Copy, PartialEq, Eq, Structural)]
pub enum CrcType {
    Uint,
}

/// The type that a name field declares.
#[derive(Debug, Clone, Copy, PartialEq, Eq, Structural)]
pub enum SrcFileNameType {
    Str,
}

/// A numeric field: its declared type and, where it carries one, its value.
#[derive(Debug)]
pub struct Crc {
    pub value: Option<i64>,
    pub type_: CrcType,
}

/// A name field: its declared type and, where it carries one, its text.
#[derive(Debug)]
pub struct Name {
    pub value: Option<String>,
    pub type_: SrcFileNameType,
}

/// The archive name of a single record: only its declared type.
#[derive(Debug)]
pub struct TarFileName {
    pub tar_file_name_type: SrcFileNameType,
}

/// A record as the elements of a list of records have it.
#[derive(Debug)]
pub struct RecordElement {
    pub crc: Option<Crc>,
    pub compressed_header_size: Option<Crc>,
    pub file_type: Option<Crc>,
    pub header_crc: Option<Crc>,
    pub header_size: Option<Crc>,
    pub size: Option<Crc>,
    pub src_file_name: Option<Name>,
    pub tar_file_name: Option<Name>,
    pub name: Option<Name>,
}

/// A record as a group of one record has it.
#[derive(Debug)]
pub struct PurpleRecord {
    pub version: Option<Crc>,
    pub crc: Option<Crc>,
    pub compressed_header_size: Option<Crc>,
    pub file_type: Option<Crc>,
    pub header_crc: Option<Crc>,
    pub header_size: Option<Crc>,
    pub size: Option<Crc>,
    pub src_file_name: Option<Name>,
    pub tar_file_name: Option<TarFileName>,
}

/// The records of one group: one record, or a list of them.
#[derive(Debug)]
pub enum RecordUnion {
    PurpleRecord(PurpleRecord),
    RecordElementArray(Vec<RecordElement>),
}

/// One group of the manifest.
#[derive(Debug)]
pub struct LatestFileList {
    pub record: RecordUnion,
}

/// The manifest: its groups by name, in the order of the document.
#[derive(Debug)]
pub struct LatestFiles {
    pub latest_file_list: Vec<(String, LatestFileList)>,
}

/// The value of a numeric field that may be missing.
pub open spec fn number_in(field: Option<Crc>) -> Option<i64> {
    match field {
        Some(crc) => crc.value,
        None => None,
    }
}

/// The text of a name field that may be missing.
pub open spec fn text_in(field: Option<Name>) -> Option<Seq<char>> {
    match field {
        Some(Name { value: Some(text), .. }) => Some(text@),
        _ => None,
    }
}

fn value_of(field: &Option<Crc>) -> (value: Option<i64>)
    ensures
        value == number_in(*field),
{
    match field {
        Some(crc) => crc.value,
        None => None,
    }
}

fn name_of(field: &Option<Name>) -> (name: Option<String>)
    ensures
        match name {
            Some(text) => text_in(*field) == Some(text@),
            None => text_in(*field) is None,
        },
{
    match field {
        Some(file) => match &file.value {
            Some(text) => Some(text.clone()),
            None => None,
        },
        None => None,
    }
}

impl Element for PurpleRecord {
    open spec fn record(&self) -> RecordView {
        RecordView {
            filename: text_in(self.src_file_name),
            size: number_in(self.size),
            header_size: number_in(self.header_size),
            compressed_header_size: number_in(self.compressed_header_size),
            crc: number_in(self.crc),
            header_crc: number_in(self.header_crc),
        }
    }

    fn get_filename(&self) -> (filename: Option<String>) {
        name_of(&self.src_file_name)
    }

    fn get_size(&self) -> (size: Option<i64>) {
        value_of(&self.size)
    }

    fn get_header_size(&self) -> (header_size: Option<i64>) {
        value_of(&self.header_size)
    }

    fn get_compressed_header_size(&self) -> (compressed_header_size: Option<i64>) {
        value_of(&self.compressed_header_size)
    }

    fn get_crc(&self) -> (crc: Option<i64>) {
        value_of(&self.crc)
    }

    fn get_header_crc(&self) -> (header_crc: Option<i64>) {
        value_of(&self.header_crc)
    }
}

impl Element for RecordElement {
    open spec fn record(&self) -> RecordView {
        RecordView {
            filename: text_in(self.src_file_name),
            size: number_in(self.size),
            header_size: number_in(self.header_size),
            compressed_header_size: number_in(self.compressed_header_size),
            crc: number_in(self.crc),
            header_crc: number_in(self.header_crc),
        }
    }

    fn get_filename(&self) -> (filename: Option<String>) {
        name_of(&self.src_file_name)
    }

    fn get_size(&self) -> (size: Option<i64>) {
        value_of(&self.size)
    }

    fn get_header_size(&self) -> (header_size: Option<i64>) {
        value_of(&self.header_size)
    }

    fn get_compressed_header_size(&self) -> (compressed_header_size: Option<i64>) {
        value_of(&self.compressed_header_size)
    }

    fn get_crc(&self) -> (crc: Option<i64>) {
        value_of(&self.crc)
    }

    fn get_header_crc(&self) -> (header_crc: Option<i64>) {
        value_of(&self.header_crc)
    }
}

/// The first member of that name.
pub open spec fn member(members: Seq<(Seq<char>, NodeView)>, name: Seq<char>) -> Option<NodeView>
    decreases members.len(),
{
    if members.len() == 0 {
        None
    } else if members[0].0 == name {
        Some(members[0].1)
    } else {
        member(members.skip(1), name)
    }
}

/// The first member of that name, unless it is null: a null member counts
/// as a missing one.
pub open spec fn present(members: Seq<(Seq<char>, NodeView)>, name: Seq<char>) -> Option<NodeView> {
    match member(members, name) {
        Some(NodeView::Null) => None,
        found => found,
    }
}

/// Whether `node` is a numeric field: an object that declares the type
/// `UINT` and whose text, where it has one, is an integer.
pub open spec fn is_crc(node: NodeView) -> bool {
    &&& node matches NodeView::Object(members)
    &&& member(members, "@TYPE"@) == Some(NodeView::Text("UINT"@))
    &&& match present(members, "#text"@) {
        None => true,
        Some(NodeView::Number(Some(_))) => true,
        Some(_) => false,
    }
}

/// The value that a numeric field carries.
pub open spec fn crc_value(node: NodeView) -> Option<i64> {
    match node {
        NodeView::Object(members) => match present(members, "#text"@) {
            Some(NodeView::Number(Some(value))) => Some(value),
            _ => None,
        },
        _ => None,
    }
}

/// Whether `node` is a name field: an object that declares the type `STR`
/// and whose text, where it has one, is a string.
pub open spec fn is_name(node: NodeView) -> bool {
    &&& node matches NodeView::Object(members)
    &&& member(members, "@TYPE"@) == Some(NodeView::Text("STR"@))
    &&& match present(members, "#text"@) {
        None => true,
        Some(NodeView::Text(_)) => true,
        Some(_) => false,
    }
}

/// The text that a name field carries.
pub open spec fn name_value(node: NodeView) -> Option<Seq<char>> {
    match node {
        NodeView::Object(members) => match present(members, "#text"@) {
            Some(NodeView::Text(text)) => Some(text),
            _ => None,
        },
        _ => None,
    }
}

/// Whether `node` is the archive name of a single record: an object that
/// declares the type `STR`.
pub open spec fn is_tar_file_name(node: NodeView) -> bool {
    &&& node matches NodeView::Object(members)
    &&& member(members, "@TYPE"@) == Some(NodeView::Text("STR"@))
}

/// Whether the member of that name is missing or a numeric field.
pub open spec fn crc_or_none(members: Seq<(Seq<char>, NodeView)>, name: Seq<char>) -> bool {
    match present(members, name) {
        Some(node) => is_crc(node),
        None => true,
    }
}

/// Whether the member of that name is missing or a name field.
pub open spec fn name_or_none(members: Seq<(Seq<char>, NodeView)>, name: Seq<char>) -> bool {
    match present(members, name) {
        Some(node) => is_name(node),
        None => true,
    }
}

/// The value of the numeric member of that name.
pub open spec fn number_at(members: Seq<(Seq<char>, NodeView)>, name: Seq<char>) -> Option<i64> {
    match present(members, name) {
        Some(node) => crc_value(node),
        None => None,
    }
}

/// The text of the name member of that name.
pub open spec fn text_at(members: Seq<(Seq<char>, NodeView)>, name: Seq<char>) -> Option<Seq<char>> {
    match present(members, name) {
        Some(node) => name_value(node),
        None => None,
    }
}

/// Whether `node` has the shape of a record in a list of records.
pub open spec fn is_record_element(node: NodeView) -> bool {
    &&& node matches NodeView::Object(members)
    &&& crc_or_none(members, "CRC"@)
    &&& crc_or_none(members, "CompressedHeaderSize"@)
    &&& crc_or_none(members, "FileType"@)
    &&& crc_or_none(members, "HeaderCRC"@)
    &&& crc_or_none(members, "HeaderSize"@)
    &&& crc_or_none(members, "Size"@)
    &&& name_or_none(members, "SrcFileName"@)
    &&& name_or_none(members, "TarFileName"@)
    &&& name_or_none(members, "Name"@)
}

/// Whether `node` has the shape of the one record of a group.
pub open spec fn is_purple_record(node: NodeView) -> bool {
    &&& node matches NodeView::Object(members)
    &&& crc_or_none(members, "Version"@)
    &&& crc_or_none(members, "CRC"@)
    &&& crc_or_none(members, "CompressedHeaderSize"@)
    &&& crc_or_none(members, "FileType"@)
    &&& crc_or_none(members, "HeaderCRC"@)
    &&& crc_or_none(members, "HeaderSize"@)
    &&& crc_or_none(members, "Size"@)
    &&& name_or_none(members, "SrcFileName"@)
    &&& match present(members, "TarFileName"@) {
        Some(tar) => is_tar_file_name(tar),
        None => true,
    }
}

impl RecordElement {
    /// Whether every field holds what the member of its name holds.
    pub open spec fn reflects(&self, members: Seq<(Seq<char>, NodeView)>) -> bool {
        &&& number_in(self.crc) == number_at(members, "CRC"@)
        &&& number_in(self.compressed_header_size) == number_at(members, "CompressedHeaderSize"@)
        &&& number_in(self.file_type) == number_at(members, "FileType"@)
        &&& number_in(self.header_crc) == number_at(members, "HeaderCRC"@)
        &&& number_in(self.header_size) == number_at(members, "HeaderSize"@)
        &&& number_in(self.size) == number_at(members, "Size"@)
        &&& text_in(self.src_file_name) == text_at(members, "SrcFileName"@)
        &&& text_in(self.tar_file_name) == text_at(members, "TarFileName"@)
        &&& text_in(self.name) == text_at(members, "Name"@)
        &&& self.crc is Some <==> present(members, "CRC"@) is Some
        &&& self.compressed_header_size is Some <==> present(members, "CompressedHeaderSize"@) is Some
        &&& self.file_type is Some <==> present(members, "FileType"@) is Some
        &&& self.header_crc is Some <==> present(members, "HeaderCRC"@) is Some
        &&& self.header_size is Some <==> present(members, "HeaderSize"@) is Some
        &&& self.size is Some <==> present(members, "Size"@) is Some
        &&& self.src_file_name is Some <==> present(members, "SrcFileName"@) is Some
        &&& self.tar_file_name is Some <==> present(members, "TarFileName"@) is Some
        &&& self.name is Some <==> present(members, "Name"@) is Some
    }
}

impl PurpleRecord {
    /// Whether every field holds what the member of its name holds.
    pub open spec fn reflects(&self, members: Seq<(Seq<char>, NodeView)>) -> bool {
        &&& number_in(self.version) == number_at(members, "Version"@)
        &&& number_in(self.crc) == number_at(members, "CRC"@)
        &&& number_in(self.compressed_header_size) == number_at(members, "CompressedHeaderSize"@)
        &&& number_in(self.file_type) == number_at(members, "FileType"@)
        &&& number_in(self.header_crc) == number_at(members, "HeaderCRC"@)
        &&& number_in(self.header_size) == number_at(members, "HeaderSize"@)
        &&& number_in(self.size) == number_at(members, "Size"@)
        &&& text_in(self.src_file_name) == text_at(members, "SrcFileName"@)
        &&& self.version is Some <==> present(members, "Version"@) is Some
        &&& self.crc is Some <==> present(members, "CRC"@) is Some
        &&& self.compressed_header_size is Some <==> present(members, "CompressedHeaderSize"@) is Some
        &&& self.file_type is Some <==> present(members, "FileType"@) is Some
        &&& self.header_crc is Some <==> present(members, "HeaderCRC"@) is Some
        &&& self.header_size is Some <==> present(members, "HeaderSize"@) is Some
        &&& self.size is Some <==> present(members, "Size"@) is Some
        &&& self.src_file_name is Some <==> present(members, "SrcFileName"@) is Some
        &&& self.tar_file_name is Some <==> present(members, "TarFileName"@) is Some
    }
}

/// What the parser reads from a record of either shape.
pub open spec fn record_of(node: NodeView) -> RecordView {
    match node {
        NodeView::Object(members) => RecordView {
            filename: text_at(members, "SrcFileName"@),
            size: number_at(members, "Size"@),
            header_size: number_at(members, "HeaderSize"@),
            compressed_header_size: number_at(members, "CompressedHeaderSize"@),
            crc: number_at(members, "CRC"@),
            header_crc: number_at(members, "HeaderCRC"@),
        },
        _ => RecordView {
            filename: None,
            size: None,
            header_size: None,
            compressed_header_size: None,
            crc: None,
            header_crc: None,
        },
    }
}

/// The records under the `RECORD` member of a group: the one record of an
/// object, the elements of a list. `None` where it is neither, or where a
/// record does not have its shape.
pub open spec fn records_of(node: NodeView) -> Option<Seq<RecordView>> {
    match node {
        NodeView::Object(_) => if is_purple_record(node) {
            Some(seq![record_of(node)])
        } else {
            None
        },
        NodeView::List(items) => if forall|i: int|
            0 <= i < items.len() ==> is_record_element(#[trigger] items[i]) {
            Some(Seq::new(items.len(), |i: int| record_of(items[i])))
        } else {
            None
        },
        _ => None,
    }
}

/// The records of a group: those under its `RECORD` member.
pub open spec fn group_of(node: NodeView) -> Option<Seq<RecordView>> {
    match node {
        NodeView::Object(members) => match member(members, "RECORD"@) {
            Some(record) => records_of(record),
            None => None,
        },
        _ => None,
    }
}

/// The groups of a document: the members of its `LatestFileList` member,
/// where that is an object.
pub open spec fn groups_in(document: NodeView) -> Option<Seq<(Seq<char>, NodeView)>> {
    match document {
        NodeView::Object(members) => match member(members, "LatestFileList"@) {
            Some(NodeView::Object(groups)) => Some(groups),
            _ => None,
        },
        _ => None,
    }
}

/// The groups of a manifest, each with its name and its records, in the order
/// of the document. `None` where the document does not have the shape of a
/// manifest: an object whose member `LatestFileList` is an object of groups.
pub open spec fn manifest_of(document: NodeView) -> Option<Seq<(Seq<char>, Seq<RecordView>)>> {
    match groups_in(document) {
        Some(groups) => if forall|g: int|
            0 <= g < groups.len() ==> (#[trigger] group_of(groups[g].1)) is Some {
            Some(Seq::new(groups.len(), |g: int| (groups[g].0, group_of(groups[g].1).unwrap())))
        } else {
            None
        },
        None => None,
    }
}

/// Whether no two members have the same name.
pub open spec fn names_distinct<A>(members: Seq<(Seq<char>, A)>) -> bool {
    forall|i: int, j: int|
        0 <= i < j < members.len() ==> (#[trigger] members[i]).0 != (#[trigger] members[j]).0
}

/// A manifest has the groups of its document, name by name: where no two
/// groups of the document have one name, no two groups of the manifest do.
pub proof fn lemma_manifest_names(document: NodeView)
    requires
        manifest_of(document) is Some,
    ensures
        groups_in(document) is Some,
        manifest_of(document).unwrap().len() == groups_in(document).unwrap().len(),
        forall|g: int|
            0 <= g < groups_in(document).unwrap().len() ==> (#[trigger] manifest_of(
                document,
            ).unwrap()[g]).0 == groups_in(document).unwrap()[g].0,
        names_distinct(groups_in(document).unwrap()) ==> names_distinct(
            manifest_of(document).unwrap(),
        ),
{
}

impl RecordUnion {
    /// The records of the group, in order.
    pub open spec fn records(&self) -> Seq<RecordView> {
        match self {
            RecordUnion::PurpleRecord(record) => seq![record.record()],
            RecordUnion::RecordElementArray(records) => Seq::new(
                records@.len(),
                |i: int| records@[i].record(),
            ),
        }
    }
}

impl View for LatestFiles {
    type V = Seq<(Seq<char>, Seq<RecordView>)>;

    open spec fn view(&self) -> Seq<(Seq<char>, Seq<RecordView>)> {
        Seq::new(
            self.latest_file_list@.len(),
            |g: int| (self.latest_file_list@[g].0@, self.latest_file_list@[g].1.record.records()),
        )
    }
}

fn find<'a>(members: &'a Vec<(String, Node)>, name: &str) -> (found: Option<&'a Node>)
    ensures
        match found {
            Some(node) => member(members_of(members@), name@) == Some(node@),
            None => member(members_of(members@), name@) is None,
        },
{
    let ghost all = members_of(members@);
    let mut i: usize = 0;
    assert(all.skip(0) =~= all);
    while i < members.len()
        invariant
            i <= members.len(),
            all == members_of(members@),
            member(all, name@) == member(all.skip(i as int), name@),
        decreases members.len() - i,
    {
        if str_eq(members[i].0.as_str(), name) {
            return Some(&members[i].1);
        }
        assert(all.skip(i as int).skip(1) =~= all.skip(i + 1));
        i = i + 1;
    }
    None
}

fn find_present<'a>(members: &'a Vec<(String, Node)>, name: &str) -> (found: Option<&'a Node>)
    ensures
        match found {
            Some(node) => present(members_of(members@), name@) == Some(node@),
            None => present(members_of(members@), name@) is None,
        },
{
    match find(members, name) {
        Some(Node::Null) => None,
        found => found,
    }
}

fn text_is(node: &Node, expected: &str) -> (same: bool)
    ensures
        same == (node@ == NodeView::Text(expected@)),
{
    match node {
        Node::Text(text) => str_eq(text.as_str(), expected),
        _ => false,
    }
}

fn declares(members: &Vec<(String, Node)>, expected: &str) -> (declared: bool)
    ensures
        declared == (member(members_of(members@), "@TYPE"@) == Some(NodeView::Text(expected@))),
{
    match find(members, "@TYPE") {
        Some(found) => text_is(found, expected),
        None => false,
    }
}

impl Crc {
    /// Reads a numeric field.
    pub fn decode(node: &Node) -> (decoded: Result<Crc, ManifestError>)
        ensures
            match decoded {
                Ok(crc) => is_crc(node@) && crc.value == crc_value(node@),
                Err(e) => e == ManifestError::ManifestDecodeError && !is_crc(node@),
            },
    {
        match node {
            Node::Object(members) => {
                proof {
                    lemma_object_view(*members);
                }
                if !declares(members, "UINT") {
                    return Err(ManifestError::ManifestDecodeError);
                }
                match find_present(members, "#text") {
                    None => Ok(Crc { value: None, type_: CrcType::Uint }),
                    Some(Node::Number(Some(value))) => Ok(
                        Crc { value: Some(*value), type_: CrcType::Uint },
                    ),
                    Some(_) => Err(ManifestError::ManifestDecodeError),
                }
            },
            _ => Err(ManifestError::ManifestDecodeError),
        }
    }
}

impl Name {
    /// Reads a name field.
    pub fn decode(node: &Node) -> (decoded: Result<Name, ManifestError>)
        ensures
            match decoded {
                Ok(name) => is_name(node@) && text_in(Some(name)) == name_value(node@),
                Err(e) => e == ManifestError::ManifestDecodeError && !is_name(node@),
            },
    {
        match node {
            Node::Object(members) => {
                proof {
                    lemma_object_view(*members);
                }
                if !declares(members, "STR") {
                    return Err(ManifestError::ManifestDecodeError);
                }
                match find_present(members, "#text") {
                    None => Ok(Name { value: None, type_: SrcFileNameType::Str }),
                    Some(Node::Text(text)) => Ok(
                        Name { value: Some(text.clone()), type_: SrcFileNameType::Str },
                    ),
                    Some(_) => Err(ManifestError::ManifestDecodeError),
                }
            },
            _ => Err(ManifestError::ManifestDecodeError),
        }
    }
}

impl TarFileName {
    /// Reads the archive name of a single record.
    pub fn decode(node: &Node) -> (decoded: Result<TarFileName, ManifestError>)
        ensures
            match decoded {
                Ok(_) => is_tar_file_name(node@),
                Err(e) => e == ManifestError::ManifestDecodeError && !is_tar_file_name(node@),
            },
    {
        match node {
            Node::Object(members) => {
                proof {
                    lemma_object_view(*members);
                }
                if declares(members, "STR") {
                    Ok(TarFileName { tar_file_name_type: SrcFileNameType::Str })
                } else {
                    Err(ManifestError::ManifestDecodeError)
                }
            },
            _ => Err(ManifestError::ManifestDecodeError),
        }
    }
}

fn crc_member(members: &Vec<(String, Node)>, name: &str) -> (field: Result<Option<Crc>, ManifestError>)
    ensures
        match field {
            Ok(crc) => crc_or_none(members_of(members@), name@) && number_in(crc) == number_at(
                members_of(members@),
                name@,
            ) && (crc is Some <==> present(members_of(members@), name@) is Some),
            Err(e) => e == ManifestError::ManifestDecodeError && !crc_or_none(
                members_of(members@),
                name@,
            ),
        },
{
    match find_present(members, name) {
        Some(node) => match Crc::decode(node) {
            Ok(crc) => Ok(Some(crc)),
            Err(e) => Err(e),
        },
        None => Ok(None),
    }
}

fn name_member(members: &Vec<(String, Node)>, name: &str) -> (field: Result<
    Option<Name>,
    ManifestError,
>)
    ensures
        match field {
            Ok(found) => name_or_none(members_of(members@), name@) && text_in(found) == text_at(
                members_of(members@),
                name@,
            ) && (found is Some <==> present(members_of(members@), name@) is Some),
            Err(e) => e == ManifestError::ManifestDecodeError && !name_or_none(
                members_of(members@),
                name@,
            ),
        },
{
    match find_present(members, name) {
        Some(node) => match Name::decode(node) {
            Ok(found) => Ok(Some(found)),
            Err(e) => Err(e),
        },
        None => Ok(None),
    }
}

impl RecordElement {
    /// Reads one element of a list of records.
    pub fn decode(node: &Node) -> (decoded: Result<RecordElement, ManifestError>)
        ensures
            match decoded {
                Ok(element) => is_record_element(node@) && element.record() == record_of(node@)
                    && element.reflects(node@->Object_0),
                Err(e) => e == ManifestError::ManifestDecodeError && !is_record_element(node@),
            },
    {
        match node {
            Node::Object(members) => {
                proof {
                    lemma_object_view(*members);
                }
                let crc = crc_member(members, "CRC")?;
                let compressed_header_size = crc_member(members, "CompressedHeaderSize")?;
                let file_type = crc_member(members, "FileType")?;
                let header_crc = crc_member(members, "HeaderCRC")?;
                let header_size = crc_member(members, "HeaderSize")?;
                let size = crc_member(members, "Size")?;
                let src_file_name = name_member(members, "SrcFileName")?;
                let tar_file_name = name_member(members, "TarFileName")?;
                let name = name_member(members, "Name")?;
                Ok(
                    RecordElement {
                        crc,
                        compressed_header_size,
                        file_type,
                        header_crc,
                        header_size,
                        size,
                        src_file_name,
                        tar_file_name,
                        name,
                    },
                )
            },
            _ => Err(ManifestError::ManifestDecodeError),
        }
    }
}

impl PurpleRecord {
    /// Reads the one record of a group.
    pub fn decode(node: &Node) -> (decoded: Result<PurpleRecord, ManifestError>)
        ensures
            match decoded {
                Ok(record) => is_purple_record(node@) && record.record() == record_of(node@)
                    && record.reflects(node@->Object_0),
                Err(e) => e == ManifestError::ManifestDecodeError && !is_purple_record(node@),
            },
    {
        match node {
            Node::Object(members) => {
                proof {
                    lemma_object_view(*members);
                }
                let version = crc_member(members, "Version")?;
                let crc = crc_member(members, "CRC")?;
                let compressed_header_size = crc_member(members, "CompressedHeaderSize")?;
                let file_type = crc_member(members, "FileType")?;
                let header_crc = crc_member(members, "HeaderCRC")?;
                let header_size = crc_member(members, "HeaderSize")?;
                let size = crc_member(members, "Size")?;
                let src_file_name = name_member(members, "SrcFileName")?;
                let tar_file_name = match find_present(members, "TarFileName") {
                    Some(tar) => Some(TarFileName::decode(tar)?),
                    None => None,
                };
                Ok(
                    PurpleRecord {
                        version,
                        crc,
                        compressed_header_size,
                        file_type,
                        header_crc,
                        header_size,
                        size,
                        src_file_name,
                        tar_file_name,
                    },
                )
            },
            _ => Err(ManifestError::ManifestDecodeError),
        }
    }
}

impl RecordUnion {
    /// Reads what stands under the `RECORD` member of a group.
    pub fn decode(node: &Node) -> (decoded: Result<RecordUnion, ManifestError>)
        ensures
            match decoded {
                Ok(group) => records_of(node@) == Some(group.records()),
                Err(e) => e == ManifestError::ManifestDecodeError && records_of(node@) is None,
            },
    {
        match node {
            Node::Object(members) => {
                proof {
                    lemma_object_view(*members);
                }
                let record = PurpleRecord::decode(node)?;
                Ok(RecordUnion::PurpleRecord(record))
            },
            Node::List(items) => {
                proof {
                    lemma_list_view(*items);
                }
                let ghost viewed = items_of(items@);
                let mut records: Vec<RecordElement> = Vec::new();
                let mut i: usize = 0;
                while i < items.len()
                    invariant
                        i <= items.len(),
                        viewed == items_of(items@),
                        node@ == NodeView::List(viewed),
                        records@.len() == i,
                        forall|k: int| 0 <= k < i ==> is_record_element(#[trigger] viewed[k]),
                        forall|k: int|
                            0 <= k < i ==> (#[trigger] records@[k]).record() == record_of(viewed[k]),
                    decreases items.len() - i,
                {
                    match RecordElement::decode(&items[i]) {
                        Ok(element) => {
                            records.push(element);
                        },
                        Err(e) => {
                            assert(!is_record_element(viewed[i as int]));
                            return Err(e);
                        },
                    }
                    i = i + 1;
                }
                let group = RecordUnion::RecordElementArray(records);
                assert(group.records() =~= Seq::new(viewed.len(), |k: int| record_of(viewed[k])));
                Ok(group)
            },
            _ => Err(ManifestError::ManifestDecodeError),
        }
    }
}

impl LatestFileList {
    /// Reads one group of the manifest.
    pub fn decode(node: &Node) -> (decoded: Result<LatestFileList, ManifestError>)
        ensures
            match decoded {
                Ok(group) => group_of(node@) == Some(group.record.records()),
                Err(e) => e == ManifestError::ManifestDecodeError && group_of(node@) is None,
            },
    {
        match node {
            Node::Object(members) => {
                proof {
                    lemma_object_view(*members);
                }
                match find(members, "RECORD") {
                    Some(found) => {
                        let record = RecordUnion::decode(found)?;
                        Ok(LatestFileList { record })
                    },
                    None => Err(ManifestError::ManifestDecodeError),
                }
            },
            _ => Err(ManifestError::ManifestDecodeError),
        }
    }
}

impl LatestFiles {
    /// Reads a manifest from its document.
    pub fn decode(document: &Node) -> (decoded: Result<LatestFiles, ManifestError>)
        ensures
            match decoded {
                Ok(manifest) => manifest_of(document@) == Some(manifest@),
                Err(e) => e == ManifestError::ManifestDecodeError && manifest_of(document@) is None,
            },
    {
        let groups = match document {
            Node::Object(members) => {
                proof {
                    lemma_object_view(*members);
                }
                match find(members, "LatestFileList") {
                    Some(Node::Object(groups)) => groups,
                    _ => {
                        return Err(ManifestError::ManifestDecodeError);
                    },
                }
            },
            _ => {
                return Err(ManifestError::ManifestDecodeError);
            },
        };
        proof {
            lemma_object_view(*groups);
        }
        let ghost viewed = members_of(groups@);
        let mut latest_file_list: Vec<(String, LatestFileList)> = Vec::new();
        let mut g: usize = 0;
        while g < groups.len()
            invariant
                g <= groups.len(),
                viewed == members_of(groups@),
                groups_in(document@) == Some(viewed),
                latest_file_list@.len() == g,
                forall|k: int| 0 <= k < g ==> (#[trigger] group_of(viewed[k].1)) is Some,
                forall|k: int|
                    0 <= k < g ==> (#[trigger] latest_file_list@[k]).0@ == viewed[k].0
                        && latest_file_list@[k].1.record.records() == group_of(viewed[k].1).unwrap(),
            decreases groups.len() - g,
        {
            match LatestFileList::decode(&groups[g].1) {
                Ok(group) => {
                    latest_file_list.push((groups[g].0.clone(), group));
                },
                Err(e) => {
                    assert(group_of(viewed[g as int].1) is None);
                    return Err(e);
                },
            }
            g = g + 1;
        }
        let manifest = LatestFiles { latest_file_list };
        assert(manifest@ =~= Seq::new(
            viewed.len(),
            |k: int| (viewed[k].0, group_of(viewed[k].1).unwrap()),
        ));
        Ok(manifest)
    }
}

} // verus!
