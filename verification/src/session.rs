use vstd::prelude::*;

use crate::catalog::{can_query, AssetList, AssetListView};
use crate::parser::parser::{AssetFetcher, AssetFetcherView, AssetView, FetchRequest};

verus! {

/// What the user did, as far as the session depends on it.
#[derive(Debug)]
pub enum Event {
    /// Leave.
    Escape,
    /// Fetch the selected asset.
    Enter,
    /// Select the asset before.
    Up,
    /// Select the asset after.
    Down,
    /// Show or hide the details.
    Space,
    /// The query was edited; this is its text now.
    Input(String),
}

/// An `Event` as plain values.
pub enum EventView {
    Escape,
    Enter,
    Up,
    Down,
    Space,
    Input(Seq<char>),
}

impl View for Event {
    type V = EventView;

    open spec fn view(&self) -> EventView {
        match self {
            Event::Escape => EventView::Escape,
            Event::Enter => EventView::Enter,
            Event::Up => EventView::Up,
            Event::Down => EventView::Down,
            Event::Space => EventView::Space,
            Event::Input(text) => EventView::Input(text@),
        }
    }
}

/// What is to be done after an event.
#[derive(Debug)]
pub enum Action {
    /// End the session.
    Quit,
    /// Start this download, then go on.
    Fetch(FetchRequest),
    /// Go on.
    Redraw,
    /// The event cannot be applied to this state, which is left as it was.
    Fault,
}

/// An `Action` as plain values.
pub enum ActionView {
    Quit,
    Fetch { url: Seq<char>, save_path: Seq<char> },
    Redraw,
    Fault,
}

impl View for Action {
    type V = ActionView;

    open spec fn view(&self) -> ActionView {
        match self {
            Action::Quit => ActionView::Quit,
            Action::Fetch(request) => ActionView::Fetch {
                url: request.url@,
                save_path: request.save_path@,
            },
            Action::Redraw => ActionView::Redraw,
            Action::Fault => ActionView::Fault,
        }
    }
}

/// The state of a session.
#[derive(Debug)]
pub struct App {
    pub assets: AssetList,
    pub asset_fetcher: AssetFetcher,
    pub extended_info: bool,
}

/// An `App` as plain values.
pub struct AppView {
    pub assets: AssetListView,
    pub asset_fetcher: AssetFetcherView,
    pub extended_info: bool,
}

impl View for App {
    type V = AppView;

    open spec fn view(&self) -> AppView {
        AppView {
            assets: self.assets@,
            asset_fetcher: self.asset_fetcher@,
            extended_info: self.extended_info,
        }
    }
}

impl AppView {
    /// The download of `asset`.
    pub open spec fn request_for(self, asset: AssetView) -> ActionView {
        ActionView::Fetch {
            url: self.asset_fetcher.url_prefix + "/"@ + asset.filename,
            save_path: self.asset_fetcher.save_path + asset.filename,
        }
    }

    /// The state after the details were shown or hidden: they show only
    /// where something is selected.
    pub open spec fn after_toggle(self) -> AppView {
        AppView { extended_info: self.assets.selected is Some && !self.extended_info, ..self }
    }

    /// The state after the selected asset was marked as fetched.
    pub open spec fn after_fetch(self) -> AppView {
        match self.assets.chosen() {
            Some(found) => AppView { assets: self.assets.after_mark(found.filename), ..self },
            None => self,
        }
    }

    /// The state after an event.
    pub open spec fn after(self, event: EventView) -> AppView {
        match event {
            EventView::Escape => self,
            EventView::Enter => self.after_fetch(),
            EventView::Up => if self.assets.can_step_previous() {
                AppView { assets: self.assets.after_previous(), ..self }
            } else {
                self
            },
            EventView::Down => if self.assets.can_step_next() {
                AppView { assets: self.assets.after_next(), ..self }
            } else {
                self
            },
            EventView::Space => self.after_toggle(),
            EventView::Input(query) => if can_query(query, self.assets.items) {
                AppView { assets: self.assets.after_query(query), ..self }
            } else {
                self
            },
        }
    }

    /// What is to be done after an event.
    pub open spec fn answer(self, event: EventView) -> ActionView {
        match event {
            EventView::Escape => ActionView::Quit,
            EventView::Enter => match self.assets.chosen() {
                Some(found) => self.request_for(found),
                None => ActionView::Redraw,
            },
            EventView::Up => if self.assets.can_step_previous() {
                ActionView::Redraw
            } else {
                ActionView::Fault
            },
            EventView::Down => if self.assets.can_step_next() {
                ActionView::Redraw
            } else {
                ActionView::Fault
            },
            EventView::Space => ActionView::Redraw,
            EventView::Input(query) => if can_query(query, self.assets.items) {
                ActionView::Redraw
            } else {
                ActionView::Fault
            },
        }
    }
}

impl App {
    /// A session over `assets` that shows no details.
    pub fn new(assets: AssetList, asset_fetcher: AssetFetcher) -> (app: Self)
        ensures
            app@ == (AppView {
                assets: assets@,
                asset_fetcher: asset_fetcher@,
                extended_info: false,
            }),
    {
        App { assets, asset_fetcher, extended_info: false }
    }

    /// Marks the selected asset as fetched and hands out its download.
    pub fn change_status(&mut self) -> (request: Option<FetchRequest>)
        ensures
            final(self)@ == old(self)@.after_fetch(),
            match request {
                Some(request) => old(self)@.assets.chosen() matches Some(found) && Action::Fetch(
                    request,
                )@ == old(self)@.request_for(found),
                None => old(self)@.assets.chosen() is None,
            },
            old(self)@.assets.wf() ==> final(self)@.assets.wf(),
    {
        match self.assets.change_status() {
            Some(asset) => Some(self.asset_fetcher.fetch_asset(&asset)),
            None => None,
        }
    }

    /// Shows the details where they were hidden and something is selected,
    /// else hides them.
    pub fn toggle_info(&mut self)
        ensures
            final(self)@ == old(self)@.after_toggle(),
    {
        if self.assets.selected.is_some() {
            self.extended_info = !self.extended_info;
        } else {
            self.extended_info = false;
        }
    }

    /// Applies one event to the session and says what is to be done.
    pub fn handle(&mut self, event: Event) -> (action: Action)
        ensures
            final(self)@ == old(self)@.after(event@),
            action@ == old(self)@.answer(event@),
            old(self)@.assets.wf() ==> final(self)@.assets.wf(),
    {
        match event {
            Event::Escape => Action::Quit,
            Event::Enter => match self.change_status() {
                Some(request) => Action::Fetch(request),
                None => Action::Redraw,
            },
            Event::Up => {
                if self.assets.can_previous() {
                    self.assets.previous();
                    Action::Redraw
                } else {
                    Action::Fault
                }
            },
            Event::Down => {
                if self.assets.can_next() {
                    self.assets.next();
                    Action::Redraw
                } else {
                    Action::Fault
                }
            },
            Event::Space => {
                self.toggle_info();
                Action::Redraw
            },
            Event::Input(query) => {
                if self.assets.try_filter_and_sort(query.as_str()) {
                    Action::Redraw
                } else {
                    Action::Fault
                }
            },
        }
    }
}

} // verus!
