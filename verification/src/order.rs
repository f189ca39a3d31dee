use std::collections::VecDeque;
use vstd::prelude::*;

use crate::parser::parser::{views, Asset, AssetView};
use crate::sorting::{
    ascending, carries_over, compares_all, insert_sorted, lemma_insertion_point_found,
    lemma_sort_ascends, lemma_sort_push, stable_sort,
};
use crate::text::{lemma_text_le_order, str_eq, str_le, text_le};

verus! {

/// The order of assets: by file name, and among assets of one name by size,
/// header size, compressed header size, checksum, header checksum and, last,
/// fetched after not fetched.
pub open spec fn asset_le(a: AssetView, b: AssetView) -> bool {
    if a.filename != b.filename {
        text_le(a.filename, b.filename)
    } else if a.size != b.size {
        a.size < b.size
    } else if a.header_size != b.header_size {
        a.header_size < b.header_size
    } else if a.compressed_header_size != b.compressed_header_size {
        a.compressed_header_size < b.compressed_header_size
    } else if a.crc != b.crc {
        a.crc < b.crc
    } else if a.header_crc != b.header_crc {
        a.header_crc < b.header_crc
    } else {
        !a.already_fetched || b.already_fetched
    }
}

/// The order of assets as a relation.
pub open spec fn by_asset() -> spec_fn(AssetView, AssetView) -> bool {
    |a: AssetView, b: AssetView| asset_le(a, b)
}

/// The order of file names as a relation on assets.
pub open spec fn by_filename() -> spec_fn(AssetView, AssetView) -> bool {
    |a: AssetView, b: AssetView| text_le(a.filename, b.filename)
}

/// The order of assets is total: any two assets compare, the order carries
/// over, and two assets that come before each other are one asset.
pub proof fn lemma_asset_order()
    ensures
        compares_all(by_asset()),
        carries_over(by_asset()),
        forall|a: AssetView, b: AssetView| #[trigger] asset_le(a, b) && asset_le(b, a) ==> a == b,
        forall|a: AssetView, b: AssetView| #[trigger]
            asset_le(a, b) ==> text_le(a.filename, b.filename),
{
    assert forall|a: AssetView, b: AssetView| #[trigger]
        by_asset()(a, b) || #[trigger] by_asset()(b, a) by {
        lemma_text_le_order(a.filename, b.filename, a.filename);
    }
    assert forall|a: AssetView, b: AssetView, c: AssetView| #[trigger]
        by_asset()(a, b) && #[trigger] by_asset()(b, c) implies by_asset()(a, c) by {
        lemma_text_le_order(a.filename, b.filename, c.filename);
        lemma_text_le_order(b.filename, a.filename, c.filename);
        lemma_text_le_order(c.filename, b.filename, a.filename);
        lemma_text_le_order(b.filename, c.filename, a.filename);
    }
    assert forall|a: AssetView, b: AssetView| #[trigger] asset_le(a, b) && asset_le(b, a) implies a
        == b by {
        lemma_text_le_order(a.filename, b.filename, a.filename);
    }
    assert forall|a: AssetView, b: AssetView| #[trigger] asset_le(a, b) implies text_le(
        a.filename,
        b.filename,
    ) by {
        lemma_text_le_order(a.filename, b.filename, a.filename);
    }
}

/// Whether `a` comes before `b` in the order of assets, or is the same asset.
pub fn asset_before(a: &Asset, b: &Asset) -> (before: bool)
    ensures
        before == asset_le(a@, b@),
{
    if !str_eq(a.filename.as_str(), b.filename.as_str()) {
        str_le(a.filename.as_str(), b.filename.as_str())
    } else if a.size != b.size {
        a.size < b.size
    } else if a.header_size != b.header_size {
        a.header_size < b.header_size
    } else if a.compressed_header_size != b.compressed_header_size {
        a.compressed_header_size < b.compressed_header_size
    } else if a.crc != b.crc {
        a.crc < b.crc
    } else if a.header_crc != b.header_crc {
        a.header_crc < b.header_crc
    } else {
        !a.already_fetched || b.already_fetched
    }
}

/// Inserting an asset inserts its view.
proof fn lemma_views_insert(assets: Seq<Asset>, k: int, asset: Asset)
    requires
        0 <= k <= assets.len(),
    ensures
        views(assets.insert(k, asset)) == views(assets).insert(k, asset@),
{
    assert(views(assets.insert(k, asset)) =~= views(assets).insert(k, asset@));
}

/// Puts `asset` into the ascending `sorted` at its insertion point.
fn insert_asset(sorted: &mut Vec<Asset>, asset: Asset)
    ensures
        views(final(sorted)@) == insert_sorted(views(old(sorted)@), asset@, by_asset()),
{
    let ghost before = views(sorted@);
    let mut k: usize = sorted.len();
    while k > 0 && !asset_before(&sorted[k - 1], &asset)
        invariant
            k <= sorted.len(),
            before == views(sorted@),
            forall|i: int| k <= i < before.len() ==> !asset_le(#[trigger] before[i], asset@),
        decreases k,
    {
        k = k - 1;
    }
    proof {
        lemma_insertion_point_found(before, asset@, by_asset(), k as int);
        lemma_views_insert(sorted@, k as int, asset);
    }
    sorted.insert(k, asset);
}

/// The assets in the order of assets.
pub fn sort_assets(items: VecDeque<Asset>) -> (sorted: Vec<Asset>)
    ensures
        views(sorted@) == stable_sort(views(items@), by_asset()),
{
    let mut items = items;
    let ghost all = views(items@);
    let ghost mut taken: int = 0;
    let mut sorted: Vec<Asset> = Vec::new();
    assert(all.take(0) =~= Seq::empty());
    assert(views(sorted@) =~= Seq::empty());
    assert(views(items@) =~= all.skip(0));
    loop
        invariant
            0 <= taken <= all.len(),
            views(items@) == all.skip(taken),
            views(sorted@) == stable_sort(all.take(taken), by_asset()),
        ensures
            taken == all.len(),
            views(sorted@) == stable_sort(all.take(taken), by_asset()),
        decreases all.len() - taken,
    {
        let ghost rest = items@;
        match items.pop_front() {
            Some(asset) => {
                proof {
                    assert(views(rest).len() == rest.len());
                    assert(all.skip(taken).len() == all.len() - taken);
                    assert(views(rest)[0] == asset@);
                    assert(all[taken] == all.skip(taken)[0]);
                    assert(views(items@) =~= all.skip(taken).skip(1));
                    assert(views(items@) =~= all.skip(taken + 1));
                    assert(all.take(taken + 1) =~= all.take(taken).push(asset@));
                    lemma_sort_push(all.take(taken), asset@, by_asset());
                    taken = taken + 1;
                }
                insert_asset(&mut sorted, asset);
            },
            None => {
                assert(views(rest).len() == 0);
                break ;
            },
        }
    }
    assert(all.take(taken) =~= all);
    sorted
}

/// A copy of the assets.
pub fn copy_assets(assets: &Vec<Asset>) -> (copy: Vec<Asset>)
    ensures
        copy@ == assets@,
{
    let mut copy: Vec<Asset> = Vec::new();
    let mut i: usize = 0;
    while i < assets.len()
        invariant
            i <= assets.len(),
            copy@ == assets@.take(i as int),
        decreases assets.len() - i,
    {
        copy.push(assets[i].clone());
        assert(copy@ =~= assets@.take(i + 1));
        i = i + 1;
    }
    assert(assets@.take(i as int) =~= assets@);
    copy
}

/// An index in the order of assets is ascending by file name.
pub proof fn lemma_sorted_index(items: Seq<AssetView>)
    ensures
        ascending(stable_sort(items, by_asset()), by_asset()),
        ascending(stable_sort(items, by_asset()), by_filename()),
{
    lemma_asset_order();
    lemma_sort_ascends(items, by_asset());
    let sorted = stable_sort(items, by_asset());
    assert forall|i: int, j: int| 0 <= i < j < sorted.len() implies by_filename()(
        #[trigger] sorted[i],
        #[trigger] sorted[j],
    ) by {
        assert(by_asset()(sorted[i], sorted[j]));
        assert(asset_le(sorted[i], sorted[j]));
    }
}

} // verus!
