use std::collections::VecDeque;
use vstd::prelude::*;
use vstd::string::*;

use super::structs::{manifest_of, Element, LatestFiles, RecordUnion, RecordView};
use crate::document::{parse_xml, xml_document, Node, NodeView};
use crate::errors::ManifestError;
use crate::revision_checker::Revision;
use crate::text::{replace_all, replaced};

verus! {

/// One distributable file of the manifest.
#[derive(Debug, PartialEq, Eq, PartialOrd, Ord)]
pub struct Asset {
    pub filename: String,
    pub size: i64,
    pub header_size: i64,
    pub compressed_header_size: i64,
    pub crc: i64,
    pub header_crc: i64,
    pub already_fetched: bool,
}

/// An `Asset` as plain values.
pub struct AssetView {
    pub filename: Seq<char>,
    pub size: i64,
    pub header_size: i64,
    pub compressed_header_size: i64,
    pub crc: i64,
    pub header_crc: i64,
    pub already_fetched: bool,
}

impl View for Asset {
    type V = AssetView;

    open spec fn view(&self) -> AssetView {
        AssetView {
            filename: self.filename@,
            size: self.size,
            header_size: self.header_size,
            compressed_header_size: self.compressed_header_size,
            crc: self.crc,
            header_crc: self.header_crc,
            already_fetched: self.already_fetched,
        }
    }
}

impl Clone for Asset {
    fn clone(&self) -> (copy: Self)
        ensures
            copy == *self,
    {
        Asset {
            filename: self.filename.clone(),
            size: self.size,
            header_size: self.header_size,
            compressed_header_size: self.compressed_header_size,
            crc: self.crc,
            header_crc: self.header_crc,
            already_fetched: self.already_fetched,
        }
    }
}

impl Default for Asset {
    fn default() -> (asset: Self)
        ensures
            asset@ == (AssetView {
                filename: Seq::empty(),
                size: 0,
                header_size: 0,
                compressed_header_size: 0,
                crc: 0,
                header_crc: 0,
                already_fetched: false,
            }),
    {
        Asset {
            filename: String::new(),
            size: 0,
            header_size: 0,
            compressed_header_size: 0,
            crc: 0,
            header_crc: 0,
            already_fetched: false,
        }
    }
}

/// The views of a sequence of assets.
pub open spec fn views(assets: Seq<Asset>) -> Seq<AssetView> {
    Seq::new(assets.len(), |i: int| assets[i]@)
}

/// Whether a record carries the value of every numeric field of an asset.
pub open spec fn complete(record: RecordView) -> bool {
    &&& record.size is Some
    &&& record.header_size is Some
    &&& record.compressed_header_size is Some
    &&& record.crc is Some
    &&& record.header_crc is Some
}

/// Whether a record names a file.
pub open spec fn named(record: RecordView) -> bool {
    record.filename is Some
}

/// Whether a record names a file and lacks a numeric value: such a record
/// cannot be listed, and the manifest that holds it is refused.
pub open spec fn refused(record: RecordView) -> bool {
    named(record) && !complete(record)
}

/// The asset that a complete record describes. It has not been fetched.
pub open spec fn described(record: RecordView) -> AssetView {
    AssetView {
        filename: record.filename.unwrap(),
        size: record.size.unwrap(),
        header_size: record.header_size.unwrap(),
        compressed_header_size: record.compressed_header_size.unwrap(),
        crc: record.crc.unwrap(),
        header_crc: record.header_crc.unwrap(),
        already_fetched: false,
    }
}

/// The assets that records describe: one for each record that names a file,
/// in the order of the records. A record without a file name is left out.
pub open spec fn listing(records: Seq<RecordView>) -> Seq<AssetView> {
    records.filter(|record: RecordView| named(record)).map_values(
        |record: RecordView| described(record),
    )
}

/// The records of a manifest: those of its groups, one group after the other.
pub open spec fn records_in(manifest: Seq<(Seq<char>, Seq<RecordView>)>) -> Seq<RecordView>
    decreases manifest.len(),
{
    if manifest.len() == 0 {
        Seq::empty()
    } else {
        records_in(manifest.drop_last()) + manifest.last().1
    }
}

/// The assets of a list of records, or the error that refuses it.
pub open spec fn listed(records: Seq<RecordView>) -> Result<Seq<AssetView>, ManifestError> {
    if exists|i: int| 0 <= i < records.len() && refused(#[trigger] records[i]) {
        Err(ManifestError::MissingRequiredField)
    } else {
        Ok(listing(records))
    }
}

/// The assets that a manifest document lists, or the error that refuses it.
pub open spec fn parsed_assets(document: NodeView) -> Result<Seq<AssetView>, ManifestError> {
    match manifest_of(document) {
        Some(manifest) => listed(records_in(manifest)),
        None => Err(ManifestError::ManifestDecodeError),
    }
}

/// The name of the manifest in its binary form, as manifest URLs end.
pub const LIST_FILE_NAME: &'static str = "LatestFileList.bin";

/// The name of the manifest in its XML form.
pub const XML_FILE_NAME: &'static str = "LatestFileList.xml";

/// What identifies the client in every request.
pub const USER_AGENT: &'static str = "KingsIsle Patcher";

/// The assets of one revision and where they are fetched from and saved to.
#[derive(Debug, Clone)]
pub struct AssetFetcher {
    pub list_file_url: String,
    pub url_prefix: String,
    pub assets: VecDeque<Asset>,
    pub revision: String,
    pub save_path: String,
}

/// An `AssetFetcher` as plain values.
pub struct AssetFetcherView {
    pub list_file_url: Seq<char>,
    pub url_prefix: Seq<char>,
    pub assets: Seq<AssetView>,
    pub revision: Seq<char>,
    pub save_path: Seq<char>,
}

impl View for AssetFetcher {
    type V = AssetFetcherView;

    open spec fn view(&self) -> AssetFetcherView {
        AssetFetcherView {
            list_file_url: self.list_file_url@,
            url_prefix: self.url_prefix@,
            assets: views(self.assets@),
            revision: self.revision@,
            save_path: self.save_path@,
        }
    }
}

/// One download: where the asset is and where it goes.
#[derive(Debug)]
pub struct FetchRequest {
    pub url: String,
    pub save_path: String,
}

impl AssetFetcher {
    /// A fetcher for `revision` that lists no asset yet. Assets are saved
    /// under `assets/<revision>/`.
    pub fn new(revision: Revision) -> (fetcher: Self)
        ensures
            fetcher@ == (AssetFetcherView {
                list_file_url: revision.list_file_url@,
                url_prefix: revision.url_prefix@,
                assets: Seq::empty(),
                revision: revision.revision@,
                save_path: "assets/"@ + revision.revision@ + "/"@,
            }),
    {
        let mut save_path = String::from_str("assets/");
        save_path.append(revision.revision.as_str());
        save_path.append("/");
        let fetcher = AssetFetcher {
            assets: VecDeque::new(),
            revision: revision.revision,
            url_prefix: revision.url_prefix,
            list_file_url: revision.list_file_url,
            save_path,
        };
        assert(views(fetcher.assets@) =~= Seq::empty());
        fetcher
    }

    /// The URL of the manifest in its XML form: that of the binary manifest
    /// with the file name exchanged.
    pub fn xml_url(&self) -> (url: String)
        ensures
            url@ == replaced(self.list_file_url@, LIST_FILE_NAME@, XML_FILE_NAME@),
    {
        proof {
            reveal_strlit("LatestFileList.bin");
        }
        replace_all(self.list_file_url.as_str(), LIST_FILE_NAME, XML_FILE_NAME)
    }

    /// Lists the asset that `record` describes. A record that names no file is
    /// passed over; one that names a file and lacks a numeric value is refused.
    pub fn add_file_to_list<T: Element>(&mut self, record: &T) -> (added: Result<(), ManifestError>)
        ensures
            final(self).list_file_url == old(self).list_file_url,
            final(self).url_prefix == old(self).url_prefix,
            final(self).revision == old(self).revision,
            final(self).save_path == old(self).save_path,
            final(self).assets@.len() >= old(self).assets@.len(),
            final(self).assets@.take(old(self).assets@.len() as int) == old(self).assets@,
            match added {
                Ok(_) => !refused(record.record()) && final(self)@.assets == if named(
                    record.record(),
                ) {
                    old(self)@.assets.push(described(record.record()))
                } else {
                    old(self)@.assets
                },
                Err(e) => e == ManifestError::MissingRequiredField && refused(record.record())
                    && final(self).assets@ == old(self).assets@,
            },
    {
        if let Some(src_file_name) = record.get_filename() {
            let size = record.get_size();
            let header_size = record.get_header_size();
            let compressed_header_size = record.get_compressed_header_size();
            let crc = record.get_crc();
            let header_crc = record.get_header_crc();
            match (size, header_size, compressed_header_size, crc, header_crc) {
                (
                    Some(size),
                    Some(header_size),
                    Some(compressed_header_size),
                    Some(crc),
                    Some(header_crc),
                ) => {
                    let file = Asset {
                        filename: src_file_name,
                        size,
                        header_size,
                        compressed_header_size,
                        crc,
                        header_crc,
                        already_fetched: false,
                    };
                    self.assets.push_back(file);
                    assert(views(self.assets@) =~= views(old(self).assets@).push(
                        described(record.record()),
                    ));
                    assert(self.assets@.take(old(self).assets@.len() as int) =~= old(
                        self,
                    ).assets@);
                },
                _ => {
                    return Err(ManifestError::MissingRequiredField);
                },
            }
        }
        assert(self.assets@.take(old(self).assets@.len() as int) =~= old(self).assets@);
        Ok(())
    }

    /// Lists the assets of a manifest, group by group. Where a record is
    /// refused, nothing is listed.
    pub fn store_elements(&mut self, parsed: &LatestFiles) -> (stored: Result<(), ManifestError>)
        ensures
            final(self).list_file_url == old(self).list_file_url,
            final(self).url_prefix == old(self).url_prefix,
            final(self).revision == old(self).revision,
            final(self).save_path == old(self).save_path,
            match stored {
                Ok(_) => listed(records_in(parsed@)) == Ok::<Seq<AssetView>, ManifestError>(
                    listing(records_in(parsed@)),
                ) && final(self)@.assets == old(self)@.assets + listing(records_in(parsed@)),
                Err(e) => listed(records_in(parsed@)) == Err::<Seq<AssetView>, ManifestError>(e)
                    && final(self)@.assets == old(self)@.assets,
            },
    {
        let ghost manifest = parsed@;
        let ghost all = records_in(manifest);
        let ghost before = self.assets@;
        let ghost mut done: Seq<RecordView> = Seq::empty();
        let kept = self.assets.len();
        let mut g: usize = 0;
        proof {
            assert(manifest.take(0) =~= Seq::empty());
            lemma_listing_empty();
            assert(views(self.assets@) =~= views(before) + listing(done));
        }
        while g < parsed.latest_file_list.len()
            invariant
                g <= parsed.latest_file_list.len(),
                manifest == parsed@,
                all == records_in(manifest),
                done == records_in(manifest.take(g as int)),
                forall|k: int| 0 <= k < done.len() ==> !refused(#[trigger] done[k]),
                views(self.assets@) == views(before) + listing(done),
                self.assets@.len() >= kept == before.len(),
                self.assets@.take(kept as int) == before,
                self.list_file_url == old(self).list_file_url,
                self.url_prefix == old(self).url_prefix,
                self.revision == old(self).revision,
                self.save_path == old(self).save_path,
                before == old(self).assets@,
            decreases parsed.latest_file_list.len() - g,
        {
            let ghost group = manifest[g as int].1;
            proof {
                lemma_records_step(manifest, g as int);
                lemma_records_prefix(manifest, g + 1);
                assert(all.len() >= done.len() + group.len());
                assert(all.take((done.len() + group.len()) as int) == done + group);
            }
            match &parsed.latest_file_list[g].1.record {
                RecordUnion::PurpleRecord(purple_record) => {
                    let ghost earlier = self.assets@;
                    let added = self.add_file_to_list(purple_record);
                    proof {
                        lemma_listing_push(done, purple_record.record());
                        assert(group =~= seq![purple_record.record()]);
                        assert(done + group =~= done.push(purple_record.record()));
                        assert((done + group)[done.len() as int] == purple_record.record());
                        assert(all[done.len() as int] == purple_record.record());
                    }
                    if let Err(e) = added {
                        self.assets.truncate(kept);
                        assert(self.assets@ =~= before);
                        return Err(e);
                    }
                    proof {
                        assert(self.assets@.take(kept as int) =~= earlier.take(kept as int));
                        done = done + group;
                    }
                },
                RecordUnion::RecordElementArray(records) => {
                    let ghost start = done;
                    let mut i: usize = 0;
                    assert(group.take(0) =~= Seq::empty());
                    assert(start + group.take(0) =~= start);
                    while i < records.len()
                        invariant
                            i <= records.len(),
                            all == records_in(parsed@),
                            group == Seq::new(records@.len(), |k: int| records@[k].record()),
                            done == start + group.take(i as int),
                            all.len() >= start.len() + group.len(),
                            all.take((start.len() + group.len()) as int) == start + group,
                            forall|k: int| 0 <= k < done.len() ==> !refused(#[trigger] done[k]),
                            views(self.assets@) == views(before) + listing(done),
                            self.assets@.len() >= kept == before.len(),
                            self.assets@.take(kept as int) == before,
                            self.list_file_url == old(self).list_file_url,
                            self.url_prefix == old(self).url_prefix,
                            self.revision == old(self).revision,
                            self.save_path == old(self).save_path,
                            before == old(self).assets@,
                        decreases records.len() - i,
                    {
                        let ghost earlier = self.assets@;
                        let added = self.add_file_to_list(&records[i]);
                        proof {
                            lemma_listing_push(done, records[i as int].record());
                            assert(group.take(i + 1) =~= group.take(i as int).push(group[i as int]));
                            assert(start + group.take(i + 1) =~= done.push(group[i as int]));
                            assert((start + group)[done.len() as int] == group[i as int]);
                            assert(all[done.len() as int] == group[i as int]);
                        }
                        if let Err(e) = added {
                            self.assets.truncate(kept);
                            assert(self.assets@ =~= before);
                            return Err(e);
                        }
                        proof {
                            assert(self.assets@.take(kept as int) =~= earlier.take(kept as int));
                            done = done.push(group[i as int]);
                        }
                        i = i + 1;
                    }
                    assert(group.take(i as int) =~= group);
                },
            }
            g = g + 1;
        }
        proof {
            assert(manifest.take(g as int) =~= manifest);
        }
        Ok(())
    }

    /// Lists the assets of a manifest document. Where the document is
    /// refused, nothing is listed.
    pub fn store_document(&mut self, document: &Node) -> (stored: Result<(), ManifestError>)
        ensures
            final(self).list_file_url == old(self).list_file_url,
            final(self).url_prefix == old(self).url_prefix,
            final(self).revision == old(self).revision,
            final(self).save_path == old(self).save_path,
            match stored {
                Ok(_) => parsed_assets(document@) matches Ok(assets) && final(self)@.assets == old(
                    self,
                )@.assets + assets,
                Err(e) => parsed_assets(document@) == Err::<Seq<AssetView>, ManifestError>(e)
                    && final(self)@.assets == old(self)@.assets,
            },
    {
        match LatestFiles::decode(document) {
            Ok(parsed) => self.store_elements(&parsed),
            Err(e) => Err(e),
        }
    }

    /// Reads the manifest from its XML text and lists its assets. A text that
    /// cannot be read as XML is refused like a document of another shape.
    pub fn parse_and_store_elements(&mut self, xml_text: String) -> (stored: Result<
        (),
        ManifestError,
    >)
        ensures
            final(self).list_file_url == old(self).list_file_url,
            final(self).url_prefix == old(self).url_prefix,
            final(self).revision == old(self).revision,
            final(self).save_path == old(self).save_path,
            match stored {
                Ok(_) => manifest_assets(xml_text@) matches Ok(assets) && final(self)@.assets
                    == old(self)@.assets + assets,
                Err(e) => manifest_assets(xml_text@) == Err::<Seq<AssetView>, ManifestError>(e)
                    && final(self)@.assets == old(self)@.assets,
            },
    {
        match parse_xml(xml_text) {
            Some(document) => self.store_document(&document),
            None => Err(ManifestError::ManifestDecodeError),
        }
    }

    /// Fills the index from the text of the XML manifest.
    pub fn load_index(&mut self, xml_text: String) -> (loaded: Result<(), ManifestError>)
        ensures
            final(self).list_file_url == old(self).list_file_url,
            final(self).url_prefix == old(self).url_prefix,
            final(self).revision == old(self).revision,
            final(self).save_path == old(self).save_path,
            match loaded {
                Ok(_) => manifest_assets(xml_text@) matches Ok(assets) && final(self)@.assets
                    == old(self)@.assets + assets,
                Err(e) => manifest_assets(xml_text@) == Err::<Seq<AssetView>, ManifestError>(e)
                    && final(self)@.assets == old(self)@.assets,
            },
    {
        self.parse_and_store_elements(xml_text)
    }

    /// Where `asset` is downloaded from and where it is saved: the URL is the
    /// prefix, a slash and the file name; the path is the save directory and
    /// the file name.
    pub fn fetch_asset(&self, asset: &Asset) -> (request: FetchRequest)
        ensures
            request.url@ == self.url_prefix@ + "/"@ + asset.filename@,
            request.save_path@ == self.save_path@ + asset.filename@,
    {
        let mut url = self.url_prefix.clone();
        url.append("/");
        url.append(asset.filename.as_str());
        let mut save_path = self.save_path.clone();
        save_path.append(asset.filename.as_str());
        FetchRequest { url, save_path }
    }
}

/// The assets that the XML text of a manifest lists, or the error that
/// refuses it.
pub open spec fn manifest_assets(xml: Seq<char>) -> Result<Seq<AssetView>, ManifestError> {
    match xml_document(xml) {
        Some(document) => parsed_assets(document),
        None => Err(ManifestError::ManifestDecodeError),
    }
}

/// No records describe no assets.
pub proof fn lemma_listing_empty()
    ensures
        listing(Seq::empty()) == Seq::<AssetView>::empty(),
{
    let none = Seq::<RecordView>::empty();
    none.lemma_filter_len(|record: RecordView| named(record));
    assert(listing(none) =~= Seq::<AssetView>::empty());
}

/// One more record adds its asset where it names a file, and nothing else.
pub proof fn lemma_listing_push(records: Seq<RecordView>, record: RecordView)
    ensures
        listing(records.push(record)) == if named(record) {
            listing(records).push(described(record))
        } else {
            listing(records)
        },
{
    records.lemma_filter_push(record, |record: RecordView| named(record));
    if named(record) {
        assert(listing(records.push(record)) =~= listing(records).push(described(record)));
    }
}

/// The records of the first `g + 1` groups are those of the first `g` groups
/// and then those of the next group.
pub proof fn lemma_records_step(manifest: Seq<(Seq<char>, Seq<RecordView>)>, g: int)
    requires
        0 <= g < manifest.len(),
    ensures
        records_in(manifest.take(g + 1)) == records_in(manifest.take(g)) + manifest[g].1,
{
    assert(manifest.take(g + 1).drop_last() =~= manifest.take(g));
}

/// The records of the first `g` groups open the records of the manifest.
pub proof fn lemma_records_prefix(manifest: Seq<(Seq<char>, Seq<RecordView>)>, g: int)
    requires
        0 <= g <= manifest.len(),
    ensures
        records_in(manifest.take(g)).len() <= records_in(manifest).len(),
        records_in(manifest).take(records_in(manifest.take(g)).len() as int) == records_in(
            manifest.take(g),
        ),
    decreases manifest.len(),
{
    if g == manifest.len() {
        assert(manifest.take(g) =~= manifest);
        assert(records_in(manifest).take(records_in(manifest).len() as int) =~= records_in(
            manifest,
        ));
    } else {
        lemma_records_prefix(manifest.drop_last(), g);
        assert(manifest.drop_last().take(g) =~= manifest.take(g));
        let shorter = records_in(manifest.drop_last());
        let prefix = records_in(manifest.take(g));
        assert((shorter + manifest.last().1).take(prefix.len() as int) =~= shorter.take(
            prefix.len() as int,
        ));
    }
}

/// A single record gives one asset where it names a file, and none where
/// it does not.
pub proof fn lemma_listing_single(record: RecordView)
    ensures
        listing(seq![record]) == if named(record) {
            seq![described(record)]
        } else {
            Seq::<AssetView>::empty()
        },
{
    lemma_listing_empty();
    lemma_listing_push(Seq::empty(), record);
    assert(Seq::<RecordView>::empty().push(record) =~= seq![record]);
    assert(Seq::<AssetView>::empty().push(described(record)) =~= seq![described(record)]);
}

/// Records give as many assets as name a file, which is no more than there
/// are records; the assets are those of the records that name a file, in
/// their order.
pub proof fn lemma_listing_count(records: Seq<RecordView>)
    ensures
        listing(records).len() == records.filter(|record: RecordView| named(record)).len(),
        listing(records).len() <= records.len(),
        forall|k: int|
            0 <= k < listing(records).len() ==> #[trigger] listing(records)[k] == described(
                records.filter(|record: RecordView| named(record))[k],
            ),
{
    records.lemma_filter_len(|record: RecordView| named(record));
}

/// Every listed asset has the file name of a record that names that file.
pub proof fn lemma_listing_names(records: Seq<RecordView>, k: int)
    requires
        0 <= k < listing(records).len(),
    ensures
        exists|i: int|
            0 <= i < records.len() && (#[trigger] records[i]).filename == Some(
                listing(records)[k].filename,
            ),
{
    let chosen = records.filter(|record: RecordView| named(record));
    let record = chosen[k];
    assert(chosen.contains(record));
    records.lemma_filter_contains_rev(|record: RecordView| named(record), record);
    let i = choose|i: int| 0 <= i < records.len() && records[i] == record;
    assert(records[i].filename == Some(listing(records)[k].filename));
}

/// Whether no two records name the same file.
pub open spec fn names_differ(records: Seq<RecordView>) -> bool {
    forall|i: int, j: int|
        0 <= i < j < records.len() && named(#[trigger] records[i]) && named(#[trigger] records[j])
            ==> records[i].filename != records[j].filename
}

/// Where no two records name the same file, no two listed assets have the
/// same file name.
pub proof fn lemma_listing_unique(records: Seq<RecordView>)
    requires
        names_differ(records),
    ensures
        forall|a: int, b: int|
            0 <= a < b < listing(records).len() ==> (#[trigger] listing(records)[a]).filename != (
            #[trigger] listing(records)[b]).filename,
    decreases records.len(),
{
    if records.len() > 0 {
        let rest = records.drop_last();
        let last = records.last();
        assert(rest.push(last) =~= records);
        assert(names_differ(rest)) by {
            assert forall|i: int, j: int|
                0 <= i < j < rest.len() && named(#[trigger] rest[i]) && named(
                    #[trigger] rest[j],
                ) implies rest[i].filename != rest[j].filename by {
                assert(rest[i] == records[i] && rest[j] == records[j]);
            }
        }
        lemma_listing_unique(rest);
        lemma_listing_push(rest, last);
        let listed = listing(records);
        assert forall|a: int, b: int| 0 <= a < b < listed.len() implies (#[trigger] listed[a]).filename
            != (#[trigger] listed[b]).filename by {
            if named(last) && b == listed.len() - 1 {
                assert(listed[a] == listing(rest)[a]);
                lemma_listing_names(rest, a);
                let i = choose|i: int|
                    0 <= i < rest.len() && (#[trigger] rest[i]).filename == Some(
                        listing(rest)[a].filename,
                    );
                assert(rest[i] == records[i]);
                assert(named(records[i]) && named(records[records.len() - 1]));
            } else {
                assert(listed[a] == listing(rest)[a] && listed[b] == listing(rest)[b]);
            }
        }
    } else {
        lemma_listing_empty();
        assert(records =~= Seq::empty());
    }
}

} // verus!
