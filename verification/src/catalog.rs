use std::collections::VecDeque;
use vstd::prelude::*;

use crate::order::{by_asset, by_filename, copy_assets, lemma_sorted_index, sort_assets};
use crate::parser::parser::{views, Asset, AssetView};
use crate::ranking::{
    can_score, candidate_views, fuzzy_ratio, lemma_ranking, rank, ranked, ranking, scorable, ratio,
    THRESHOLD,
};
use crate::sorting::{ascending, stable_sort};
use crate::text::str_eq;

verus! {

/// Every asset with its similarity to the query.
pub open spec fn candidates_for(query: Seq<char>, items: Seq<AssetView>) -> Seq<(u8, AssetView)> {
    Seq::new(items.len(), |i: int| (fuzzy_ratio(query, items[i].filename), items[i]))
}

/// What a query shows: every asset for the empty query, else the ranking of
/// the assets by their similarity to the query.
pub open spec fn query_result(query: Seq<char>, items: Seq<AssetView>) -> Seq<AssetView> {
    if query.len() == 0 {
        items
    } else {
        ranked(candidates_for(query, items))
    }
}

/// Whether every asset can be scored against the query. The empty query
/// scores nothing.
pub open spec fn can_query(query: Seq<char>, items: Seq<AssetView>) -> bool {
    query.len() > 0 ==> forall|i: int|
        0 <= i < items.len() ==> can_score(query, (#[trigger] items[i]).filename)
}

/// The asset with the fetched mark set, where it has that file name.
pub open spec fn marked(asset: AssetView, filename: Seq<char>) -> AssetView {
    if asset.filename == filename {
        AssetView { already_fetched: true, ..asset }
    } else {
        asset
    }
}

/// The assets with the fetched mark set on every one of that file name.
pub open spec fn marked_all(assets: Seq<AssetView>, filename: Seq<char>) -> Seq<AssetView> {
    Seq::new(assets.len(), |i: int| marked(assets[i], filename))
}

/// The index of the assets, the working view that a query makes of it, and
/// the selection in the working view.
#[derive(Debug, Clone)]
pub struct AssetList {
    /// The selected position of the working view.
    pub selected: Option<usize>,
    /// Every asset, in the order of assets.
    pub items: Vec<Asset>,
    /// The working view.
    pub filtered_items: Vec<Asset>,
    /// Where the selection starts when nothing is selected.
    pub last_selected: Option<usize>,
    /// A copy of the selected asset, as the details show it.
    pub selected_assets: Option<Asset>,
}

/// An `AssetList` as plain values.
pub struct AssetListView {
    pub selected: Option<usize>,
    pub items: Seq<AssetView>,
    pub filtered_items: Seq<AssetView>,
    pub last_selected: Option<usize>,
    pub selected_assets: Option<AssetView>,
}

impl AssetListView {
    /// What holds of every list that `with_items` made and the methods
    /// changed: the index is ascending by file name, and every asset of the
    /// working view stands in the index.
    pub open spec fn wf(self) -> bool {
        &&& ascending(self.items, by_filename())
        &&& forall|i: int|
            0 <= i < self.filtered_items.len() ==> self.items.contains(
                #[trigger] self.filtered_items[i],
            )
    }

    /// The position that `next` selects.
    pub open spec fn next_index(self) -> usize {
        match self.selected {
            Some(nth) => if nth >= self.filtered_items.len() - 1 {
                0
            } else {
                (nth + 1) as usize
            },
            None => match self.last_selected {
                Some(last) => last,
                None => 0,
            },
        }
    }

    /// The position that `previous` selects.
    pub open spec fn previous_index(self) -> usize {
        match self.selected {
            Some(nth) => if nth == 0 {
                (self.filtered_items.len() - 1) as usize
            } else {
                (nth - 1) as usize
            },
            None => match self.last_selected {
                Some(last) => last,
                None => 0,
            },
        }
    }

    /// The asset that the details show after a step to `position`: the one at
    /// that position, where a selection was moved there; none where the step
    /// started a selection.
    pub open spec fn shown_at(self, position: usize) -> Option<AssetView> {
        if self.selected is Some && position < self.filtered_items.len() {
            Some(self.filtered_items[position as int])
        } else {
            None
        }
    }

    /// Whether `next` can step: a selection needs a working view that is not
    /// empty.
    pub open spec fn can_step_next(self) -> bool {
        self.selected is Some ==> self.filtered_items.len() > 0
    }

    /// Whether `previous` can step: going back from the first position needs
    /// a working view that is not empty.
    pub open spec fn can_step_previous(self) -> bool {
        self.selected == Some(0usize) ==> self.filtered_items.len() > 0
    }

    /// The list after `next`.
    pub open spec fn after_next(self) -> AssetListView {
        AssetListView {
            selected: Some(self.next_index()),
            selected_assets: self.shown_at(self.next_index()),
            ..self
        }
    }

    /// The list after `previous`.
    pub open spec fn after_previous(self) -> AssetListView {
        AssetListView {
            selected: Some(self.previous_index()),
            selected_assets: self.shown_at(self.previous_index()),
            ..self
        }
    }

    /// The list with every asset of that file name marked as fetched, in the
    /// index and in the working view.
    pub open spec fn after_mark(self, filename: Seq<char>) -> AssetListView {
        AssetListView {
            items: marked_all(self.items, filename),
            filtered_items: marked_all(self.filtered_items, filename),
            ..self
        }
    }

    /// The list with the working view that a query makes.
    pub open spec fn after_query(self, query: Seq<char>) -> AssetListView {
        AssetListView { filtered_items: query_result(query, self.items), ..self }
    }

    /// The asset under the selection.
    pub open spec fn chosen(self) -> Option<AssetView> {
        match self.selected {
            Some(nth) => if nth < self.filtered_items.len() {
                Some(self.filtered_items[nth as int])
            } else {
                None
            },
            None => None,
        }
    }
}

/// The view of an asset that may be missing.
pub open spec fn view_of(asset: Option<Asset>) -> Option<AssetView> {
    match asset {
        Some(asset) => Some(asset@),
        None => None,
    }
}

impl View for AssetList {
    type V = AssetListView;

    open spec fn view(&self) -> AssetListView {
        AssetListView {
            selected: self.selected,
            items: views(self.items@),
            filtered_items: views(self.filtered_items@),
            last_selected: self.last_selected,
            selected_assets: view_of(self.selected_assets),
        }
    }
}

fn mark_in(assets: &mut Vec<Asset>, filename: &str)
    ensures
        views(final(assets)@) == marked_all(views(old(assets)@), filename@),
{
    let ghost before = views(assets@);
    let mut i: usize = 0;
    while i < assets.len()
        invariant
            i <= assets.len() == before.len(),
            forall|k: int| 0 <= k < i ==> (#[trigger] assets@[k])@ == marked(before[k], filename@),
            forall|k: int| i <= k < assets.len() ==> (#[trigger] assets@[k])@ == before[k],
        decreases assets.len() - i,
    {
        if str_eq(assets[i].filename.as_str(), filename) {
            let mut asset = assets[i].clone();
            asset.already_fetched = true;
            assets.set(i, asset);
        }
        i = i + 1;
    }
    assert(views(assets@) =~= marked_all(before, filename@));
}

impl AssetList {
    /// The list of `items`: the index holds them in the order of assets, the
    /// working view shows all of them, and nothing is selected.
    pub fn with_items(items: VecDeque<Asset>) -> (list: Self)
        ensures
            list@ == (AssetListView {
                selected: None,
                items: stable_sort(views(items@), by_asset()),
                filtered_items: stable_sort(views(items@), by_asset()),
                last_selected: None,
                selected_assets: None,
            }),
            list@.wf(),
    {
        let ghost given = views(items@);
        let items = sort_assets(items);
        let filtered_items = copy_assets(&items);
        let list = AssetList {
            selected: None,
            filtered_items,
            items,
            last_selected: None,
            selected_assets: None,
        };
        proof {
            lemma_sorted_index(given);
            assert forall|i: int| 0 <= i < list@.filtered_items.len() implies list@.items.contains(
                #[trigger] list@.filtered_items[i],
            ) by {
                assert(list@.items[i] == list@.filtered_items[i]);
            }
        }
        list
    }

    /// How many assets the index holds.
    pub fn asset_len(&self) -> (count: usize)
        ensures
            count == self@.items.len(),
    {
        self.items.len()
    }

    /// Whether `next` can step.
    pub fn can_next(&self) -> (possible: bool)
        ensures
            possible == self@.can_step_next(),
    {
        self.selected.is_none() || self.filtered_items.len() > 0
    }

    /// Whether `previous` can step.
    pub fn can_previous(&self) -> (possible: bool)
        ensures
            possible == self@.can_step_previous(),
    {
        match self.selected {
            Some(nth) => nth != 0 || self.filtered_items.len() > 0,
            None => true,
        }
    }

    /// Moves the selection one position on, from the last position to the
    /// first. Without a selection, selects the start position and shows no
    /// details.
    pub fn next(&mut self)
        requires
            old(self)@.can_step_next(),
        ensures
            final(self)@ == old(self)@.after_next(),
            old(self)@.wf() ==> final(self)@.wf(),
    {
        match self.selected {
            Some(nth) => {
                let to_select = if nth >= self.filtered_items.len() - 1 {
                    0
                } else {
                    nth + 1
                };
                self.selected = Some(to_select);
                if to_select < self.filtered_items.len() {
                    self.selected_assets = Some(self.filtered_items[to_select].clone());
                } else {
                    self.selected_assets = None;
                }
            },
            None => {
                self.selected = Some(
                    match self.last_selected {
                        Some(last) => last,
                        None => 0,
                    },
                );
                self.selected_assets = None;
            },
        }
    }

    /// Moves the selection one position back, from the first position to the
    /// last. Without a selection, selects the start position and shows no
    /// details.
    pub fn previous(&mut self)
        requires
            old(self)@.can_step_previous(),
        ensures
            final(self)@ == old(self)@.after_previous(),
            old(self)@.wf() ==> final(self)@.wf(),
    {
        match self.selected {
            Some(nth) => {
                let to_select = if nth == 0 {
                    self.filtered_items.len() - 1
                } else {
                    nth - 1
                };
                self.selected = Some(to_select);
                if to_select < self.filtered_items.len() {
                    self.selected_assets = Some(self.filtered_items[to_select].clone());
                } else {
                    self.selected_assets = None;
                }
            },
            None => {
                self.selected = Some(
                    match self.last_selected {
                        Some(last) => last,
                        None => 0,
                    },
                );
                self.selected_assets = None;
            },
        }
    }

    /// Shows what the query finds: every asset for the empty query, else the
    /// assets whose file names are similar enough to the query, the most
    /// similar first. The index stays as it is.
    pub fn filter_and_sort(&mut self, query: &str)
        requires
            can_query(query@, old(self)@.items),
        ensures
            final(self)@ == old(self)@.after_query(query@),
            old(self)@.wf() ==> final(self)@.wf(),
    {
        if query.is_empty() {
            self.filtered_items = copy_assets(&self.items);
        } else {
            let mut candidates: Vec<(u8, Asset)> = Vec::new();
            let mut i: usize = 0;
            while i < self.items.len()
                invariant
                    i <= self.items.len(),
                    query@.len() > 0,
                    can_query(query@, self@.items),
                    candidates@.len() == i,
                    candidate_views(candidates@) == candidates_for(query@, self@.items).take(
                        i as int,
                    ),
                decreases self.items.len() - i,
            {
                assert(can_score(query@, self@.items[i as int].filename));
                let score = ratio(query, self.items[i].filename.as_str());
                let ghost earlier = candidate_views(candidates@);
                candidates.push((score, self.items[i].clone()));
                proof {
                    let expected = candidates_for(query@, self@.items).take(i + 1);
                    let found = candidate_views(candidates@);
                    assert(self@.items[i as int] == self.items@[i as int]@);
                    assert(self@.items.len() == self.items@.len());
                    assert(candidates_for(query@, self@.items).len() == self.items@.len());
                    assert(found.len() == expected.len());
                    assert forall|k: int| 0 <= k < found.len() implies found[k] == expected[k] by {
                        if k < i {
                            assert(found[k] == earlier[k]);
                        }
                    }
                    assert(found =~= expected);
                }
                i = i + 1;
            }
            assert(candidates_for(query@, self@.items).take(i as int) =~= candidates_for(
                query@,
                self@.items,
            ));
            self.filtered_items = rank(&candidates);
        }
        proof {
            lemma_query_within(query@, old(self)@.items);
        }
    }

    /// Whether every asset can be scored against the query.
    pub fn can_filter(&self, query: &str) -> (possible: bool)
        ensures
            possible == can_query(query@, self@.items),
    {
        if query.is_empty() {
            return true;
        }
        let mut i: usize = 0;
        while i < self.items.len()
            invariant
                i <= self.items.len(),
                query@.len() > 0,
                forall|k: int| 0 <= k < i ==> can_score(query@, (#[trigger] self@.items[k]).filename),
            decreases self.items.len() - i,
        {
            if !scorable(query, self.items[i].filename.as_str()) {
                assert(!can_score(query@, self@.items[i as int].filename));
                return false;
            }
            i = i + 1;
        }
        true
    }

    /// Shows what the query finds, where every asset can be scored against
    /// it; else leaves the list as it is and says so.
    pub fn try_filter_and_sort(&mut self, query: &str) -> (done: bool)
        ensures
            done == can_query(query@, old(self)@.items),
            final(self)@ == if done {
                old(self)@.after_query(query@)
            } else {
                old(self)@
            },
            old(self)@.wf() ==> final(self)@.wf(),
    {
        if self.can_filter(query) {
            self.filter_and_sort(query);
            true
        } else {
            false
        }
    }

    /// Sets the fetched mark on every asset of that file name, in the index
    /// and in the working view.
    pub fn mark_fetched(&mut self, filename: &str)
        ensures
            final(self)@ == old(self)@.after_mark(filename@),
            old(self)@.wf() ==> final(self)@.wf(),
    {
        mark_in(&mut self.items, filename);
        mark_in(&mut self.filtered_items, filename);
        proof {
            if old(self)@.wf() {
                lemma_marked_wf(old(self)@, filename@);
            }
        }
    }

    /// Marks the selected asset as fetched and hands out a copy of it, for
    /// the download. Does nothing where no asset is selected.
    pub fn change_status(&mut self) -> (chosen: Option<Asset>)
        ensures
            match chosen {
                Some(asset) => old(self)@.chosen() matches Some(found) && asset@ == marked(
                    found,
                    found.filename,
                ) && final(self)@ == old(self)@.after_mark(found.filename),
                None => old(self)@.chosen() is None && final(self)@ == old(self)@,
            },
            old(self)@.wf() ==> final(self)@.wf(),
    {
        match self.selected {
            Some(nth) => {
                if nth < self.filtered_items.len() {
                    let mut asset = self.filtered_items[nth].clone();
                    asset.already_fetched = true;
                    self.mark_fetched(asset.filename.as_str());
                    Some(asset)
                } else {
                    None
                }
            },
            None => None,
        }
    }
}

/// Marking keeps a list well-formed.
pub proof fn lemma_marked_wf(list: AssetListView, filename: Seq<char>)
    requires
        list.wf(),
    ensures
        list.after_mark(filename).wf(),
{
    let items = marked_all(list.items, filename);
    let filtered = marked_all(list.filtered_items, filename);
    assert forall|i: int, j: int| 0 <= i < j < items.len() implies by_filename()(
        #[trigger] items[i],
        #[trigger] items[j],
    ) by {
        assert(by_filename()(list.items[i], list.items[j]));
    }
    assert forall|i: int| 0 <= i < filtered.len() implies items.contains(#[trigger] filtered[i]) by {
        let asset = list.filtered_items[i];
        assert(list.items.contains(asset));
        let j = choose|j: int| 0 <= j < list.items.len() && list.items[j] == asset;
        assert(items[j] == filtered[i]);
    }
}

/// What a query shows stands in the index, and what the empty query shows is
/// the index.
pub proof fn lemma_query_within(query: Seq<char>, items: Seq<AssetView>)
    ensures
        forall|i: int|
            0 <= i < query_result(query, items).len() ==> items.contains(
                #[trigger] query_result(query, items)[i],
            ),
        query.len() == 0 ==> query_result(query, items) == items,
{
    let shown = query_result(query, items);
    if query.len() > 0 {
        let candidates = candidates_for(query, items);
        lemma_ranking(candidates, 0);
        assert forall|i: int| 0 <= i < shown.len() implies items.contains(#[trigger] shown[i]) by {
            let candidate = ranking(candidates)[i];
            assert(candidates.contains(candidate));
            let k = choose|k: int| 0 <= k < candidates.len() && candidates[k] == candidate;
            assert(items[k] == shown[i]);
        }
    } else {
        assert forall|i: int| 0 <= i < shown.len() implies items.contains(#[trigger] shown[i]) by {
            assert(items[i] == shown[i]);
        }
    }
}

/// The empty query shows every asset of a well-formed list, ascending by
/// file name.
pub proof fn lemma_empty_query(list: AssetListView)
    requires
        list.wf(),
    ensures
        query_result(Seq::empty(), list.items) == list.items,
        ascending(query_result(Seq::empty(), list.items), by_filename()),
{
}

/// A query that is not empty shows no asset whose similarity to the query is
/// below the threshold, and shows the assets by similarity, the most similar
/// first.
pub proof fn lemma_query_ranks(query: Seq<char>, items: Seq<AssetView>)
    requires
        query.len() > 0,
    ensures
        forall|i: int|
            0 <= i < query_result(query, items).len() ==> fuzzy_ratio(
                query,
                (#[trigger] query_result(query, items)[i]).filename,
            ) >= THRESHOLD,
        forall|i: int, j: int|
            0 <= i < j < query_result(query, items).len() ==> fuzzy_ratio(
                query,
                (#[trigger] query_result(query, items)[i]).filename,
            ) >= fuzzy_ratio(query, (#[trigger] query_result(query, items)[j]).filename),
{
    let candidates = candidates_for(query, items);
    let result = ranking(candidates);
    let shown = query_result(query, items);
    lemma_ranking(candidates, 0);
    assert forall|i: int| 0 <= i < result.len() implies (#[trigger] result[i]).0 == fuzzy_ratio(
        query,
        result[i].1.filename,
    ) by {
        let candidate = result[i];
        assert(candidates.contains(candidate));
        let k = choose|k: int| 0 <= k < candidates.len() && candidates[k] == candidate;
    }
    assert forall|i: int| 0 <= i < shown.len() implies fuzzy_ratio(
        query,
        (#[trigger] shown[i]).filename,
    ) >= THRESHOLD by {
        assert(shown[i] == result[i].1);
    }
    assert forall|i: int, j: int| 0 <= i < j < shown.len() implies fuzzy_ratio(
        query,
        (#[trigger] shown[i]).filename,
    ) >= fuzzy_ratio(query, (#[trigger] shown[j]).filename) by {
        assert(shown[i] == result[i].1 && shown[j] == result[j].1);
        assert(result[i].0 >= result[j].0);
    }
}

/// What marking does: assets of that file name are fetched afterwards, in
/// the index and in the working view; a mark that is set stays set; and
/// nothing else changes. Where the index holds no asset of that name, a
/// well-formed list stays as it is.
pub proof fn lemma_mark(list: AssetListView, filename: Seq<char>)
    ensures
        list.after_mark(filename).items.len() == list.items.len(),
        list.after_mark(filename).filtered_items.len() == list.filtered_items.len(),
        forall|i: int|
            0 <= i < list.items.len() ==> (#[trigger] list.after_mark(filename).items[i]) == marked(
                list.items[i],
                filename,
            ),
        forall|i: int|
            0 <= i < list.filtered_items.len() ==> (#[trigger] list.after_mark(
                filename,
            ).filtered_items[i]) == marked(list.filtered_items[i], filename),
        forall|asset: AssetView| #[trigger]
            marked(asset, filename).already_fetched == (asset.already_fetched || asset.filename
                == filename),
        forall|asset: AssetView|
            (#[trigger] marked(asset, filename)) == (AssetView {
                already_fetched: marked(asset, filename).already_fetched,
                ..asset
            }),
        list.wf() && (forall|i: int|
            0 <= i < list.items.len() ==> (#[trigger] list.items[i]).filename != filename)
            ==> list.after_mark(filename) == list,
{
    if list.wf() && (forall|i: int|
        0 <= i < list.items.len() ==> (#[trigger] list.items[i]).filename != filename) {
        assert(marked_all(list.items, filename) =~= list.items);
        assert forall|i: int| 0 <= i < list.filtered_items.len() implies marked(
            #[trigger] list.filtered_items[i],
            filename,
        ) == list.filtered_items[i] by {
            let asset = list.filtered_items[i];
            assert(list.items.contains(asset));
            let j = choose|j: int| 0 <= j < list.items.len() && list.items[j] == asset;
            assert(list.items[j].filename != filename);
        }
        assert(marked_all(list.filtered_items, filename) =~= list.filtered_items);
    }
}

} // verus!
