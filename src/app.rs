//! The state the views read and the decisions taken on it: which fetches
//! may start, and what a result drained from a worker changes.
use crate::about;
use crate::config::Config;
use crate::latest::{self, assets, count_d7_up, count_h24_up, key_fn, sorted_by, texts, Latest};
use crate::stats::joined;
use crate::stats::Stats;
use crate::util::{saturating_diff, timelapse};
use vstd::prelude::*;

verus! {

/// Kind of a transient notice.
#[derive(Copy, Clone, Debug, PartialEq, Eq, Structural)]
pub enum MsgType {
    Info,
    Warn,
    Success,
    Danger,
}

/// The page on screen; also names the dataset a fetch is for.
#[derive(Copy, Clone, Debug, PartialEq, Eq, Structural)]
pub enum CurrentPanel {
    Latest,
    Trending,
    Stats,
    About,
}

impl Default for CurrentPanel {
    fn default() -> (r: Self)
        ensures
            r == CurrentPanel::Latest,
    {
        CurrentPanel::Latest
    }
}

/// The notice on screen and when it was raised.
#[derive(Clone, Debug)]
pub struct MsgSpec {
    pub msg: String,
    pub msg_type: MsgType,
    pub timestamp: i64,
}

/// A dataset a worker fetched.
#[derive(Clone)]
pub enum ChannelInnerItem {
    Latest(Latest),
    Trending,
    Stats(Stats),
}

/// What a worker hands back: a dataset, or the error that ended its fetch
/// with the dataset it was for.
#[derive(Clone)]
pub enum ChannelItem {
    ErrMsg(CurrentPanel, String),
    Item(ChannelInnerItem),
}

/// Notices stay on screen this many seconds.
pub const MESSAGE_SECONDS: i64 = 5;

/// Application state owned by the rendering thread.
#[derive(Clone)]
pub struct App {
    pub is_scroll_to_top_latest: bool,
    pub is_scroll_to_top_trending: bool,
    pub is_scroll_to_top_stats: bool,
    pub is_fetching_latest: bool,
    pub is_fetching_trending: bool,
    pub is_fetching_stats: bool,
    pub latest: Latest,
    pub stats: Stats,
    pub current_panel: CurrentPanel,
    pub prev_panel: CurrentPanel,
    pub conf: Config,
    pub about_setting: about::Setting,
    pub latest_setting: latest::Setting,
    pub msg_spec: MsgSpec,
    pub cmc_pro_api_key: String,
}

/// The datasets that have a fetch.
pub open spec fn fetchable(kind: CurrentPanel) -> bool {
    kind == CurrentPanel::Latest || kind == CurrentPanel::Stats
}

/// Whether a fetch of `kind` is outstanding.
pub open spec fn in_flight(a: App, kind: CurrentPanel) -> bool {
    match kind {
        CurrentPanel::Latest => a.is_fetching_latest,
        CurrentPanel::Trending => a.is_fetching_trending,
        CurrentPanel::Stats => a.is_fetching_stats,
        CurrentPanel::About => false,
    }
}

/// `a` with the in-flight flag of `kind` set to `v`.
pub open spec fn with_flight(a: App, kind: CurrentPanel, v: bool) -> App {
    match kind {
        CurrentPanel::Latest => App { is_fetching_latest: v, ..a },
        CurrentPanel::Trending => App { is_fetching_trending: v, ..a },
        CurrentPanel::Stats => App { is_fetching_stats: v, ..a },
        CurrentPanel::About => a,
    }
}

/// A refresh of `kind` starts a worker exactly when the dataset has a fetch
/// and none is outstanding.
pub open spec fn refresh_spawns(a: App, kind: CurrentPanel) -> bool {
    fetchable(kind) && !in_flight(a, kind)
}

/// The state after a refresh of `kind` is asked for.
pub open spec fn refreshed(a: App, kind: CurrentPanel) -> App {
    if fetchable(kind) {
        with_flight(a, kind, true)
    } else {
        a
    }
}

/// The dataset a message is about.
pub open spec fn message_kind(m: ChannelItem) -> CurrentPanel {
    match m {
        ChannelItem::ErrMsg(panel, _) => panel,
        ChannelItem::Item(ChannelInnerItem::Latest(_)) => CurrentPanel::Latest,
        ChannelItem::Item(ChannelInnerItem::Trending) => CurrentPanel::Trending,
        ChannelItem::Item(ChannelInnerItem::Stats(_)) => CurrentPanel::Stats,
    }
}

/// Whether a notice raised at `raised` is still shown at `now`.
pub open spec fn message_shown(now: int, raised: int) -> bool {
    saturating_diff(now, raised) < MESSAGE_SECONDS
}

/// What adopting a fetched snapshot of the latest quotes does: a snapshot
/// with a server error only raises it as a notice; an empty one changes
/// nothing; any other replaces the dataset, recounts it, and is put in the
/// active order.
pub open spec fn adopts_latest(before: App, after: App, item: Latest, now: i64) -> bool {
    &&& after == (App { latest: after.latest, msg_spec: after.msg_spec, ..before })
    &&& match item.status.error_message {
        Some(e) => {
            &&& after.latest == before.latest
            &&& after.msg_spec.msg@ == e@
            &&& after.msg_spec.msg_type == MsgType::Warn
            &&& after.msg_spec.timestamp == now
        },
        None => {
            &&& after.msg_spec == before.msg_spec
            &&& if item.data@.len() == 0 {
                after.latest == before.latest
            } else {
                &&& after.latest.status == item.status
                &&& assets(after.latest.data@) == sorted_by(
                    assets(item.data@),
                    key_fn(before.latest_setting.sort_key, before.latest_setting.marked_set()),
                )
                &&& after.latest.addition_info.h24_up_count == count_h24_up(assets(item.data@))
                &&& after.latest.addition_info.d7_up_count == count_d7_up(assets(item.data@))
                &&& after.latest.addition_info.timestamp == now
            }
        },
    }
}

/// What adopting a fetched snapshot of the market indices does: one that
/// met errors only raises them as one notice; any other replaces the
/// dataset.
pub open spec fn adopts_stats(before: App, after: App, item: Stats, now: i64) -> bool {
    if item.errors@.len() > 0 {
        &&& after == (App { msg_spec: after.msg_spec, ..before })
        &&& after.msg_spec.msg@ == joined(texts(item.errors@), "\n\n"@)
        &&& after.msg_spec.msg_type == MsgType::Warn
        &&& after.msg_spec.timestamp == now
    } else {
        after == (App { stats: item, ..before })
    }
}

/// What draining one message at time `now` does besides clearing the flag
/// of its dataset.
pub open spec fn drains(before: App, after: App, m: ChannelItem, now: i64) -> bool {
    match m {
        ChannelItem::ErrMsg(_, msg) => {
            &&& after == (App { msg_spec: after.msg_spec, ..before })
            &&& after.msg_spec.msg@ == msg@
            &&& after.msg_spec.msg_type == MsgType::Warn
            &&& after.msg_spec.timestamp == now
        },
        ChannelItem::Item(ChannelInnerItem::Latest(l)) => adopts_latest(before, after, l, now),
        ChannelItem::Item(ChannelInnerItem::Trending) => after == before,
        ChannelItem::Item(ChannelInnerItem::Stats(st)) => adopts_stats(before, after, st, now),
    }
}

/// While one fetch of a dataset is outstanding, asking again starts nothing
/// and changes nothing: two refreshes in a row start exactly one worker.
pub proof fn lemma_single_fetch_in_flight(a: App, kind: CurrentPanel)
    requires
        fetchable(kind),
        !in_flight(a, kind),
    ensures
        refresh_spawns(a, kind),
        in_flight(refreshed(a, kind), kind),
        !refresh_spawns(refreshed(a, kind), kind),
        refreshed(refreshed(a, kind), kind) == refreshed(a, kind),
{
}

impl App {
    /// A fresh state: nothing fetched or in flight, the latest quotes on
    /// screen, ordered by rank.
    pub fn new(cmc_pro_api_key: String) -> (r: Self)
        ensures
            !r.is_fetching_latest && !r.is_fetching_trending && !r.is_fetching_stats,
            !r.is_scroll_to_top_latest && !r.is_scroll_to_top_trending && !r.is_scroll_to_top_stats,
            r.current_panel == CurrentPanel::Latest,
            r.prev_panel == CurrentPanel::Latest,
            r.latest.data@.len() == 0,
            r.latest.status.error_message is None,
            r.stats.errors@.len() == 0,
            r.latest_setting.wf(),
            r.latest_setting.sort_key == latest::SortKey::Rank,
            r.latest_setting.marks().len() == 0,
            r.cmc_pro_api_key@ == cmc_pro_api_key@,
            r.conf.ui.is_cn,
    {
        App {
            is_scroll_to_top_latest: false,
            is_scroll_to_top_trending: false,
            is_scroll_to_top_stats: false,
            is_fetching_latest: false,
            is_fetching_trending: false,
            is_fetching_stats: false,
            latest: Latest::new(),
            stats: Stats::new(),
            current_panel: CurrentPanel::Latest,
            prev_panel: CurrentPanel::Latest,
            conf: Config::default(),
            about_setting: about::Setting,
            latest_setting: latest::Setting::new(),
            msg_spec: MsgSpec { msg: String::new(), msg_type: MsgType::Info, timestamp: 0 },
            cmc_pro_api_key,
        }
    }

    /// Opens a secondary page, remembering the one to return to.
    pub fn switch_panel(&mut self, panel: CurrentPanel)
        ensures
            *final(self) == (App { prev_panel: old(self).current_panel, current_panel: panel, ..*old(self) }),
    {
        self.prev_panel = self.current_panel;
        self.current_panel = panel;
    }

    /// Whether a fetch of `kind` is outstanding.
    pub fn is_fetch_in_flight(&self, kind: CurrentPanel) -> (r: bool)
        ensures
            r == in_flight(*self, kind),
    {
        match kind {
            CurrentPanel::Latest => self.is_fetching_latest,
            CurrentPanel::Trending => self.is_fetching_trending,
            CurrentPanel::Stats => self.is_fetching_stats,
            CurrentPanel::About => false,
        }
    }

    /// Asks for a refresh of `kind`. Returns whether the caller must start a
    /// worker for it; a request while one is outstanding is dropped.
    pub fn request_refresh(&mut self, kind: CurrentPanel) -> (spawn: bool)
        ensures
            spawn == refresh_spawns(*old(self), kind),
            *final(self) == refreshed(*old(self), kind),
    {
        match kind {
            CurrentPanel::Latest => self.fetch_latest(),
            CurrentPanel::Stats => self.fetch_stats(),
            _ => false,
        }
    }

    /// Marks a fetch of the latest quotes as started; `false` when one is
    /// already outstanding.
    pub fn fetch_latest(&mut self) -> (spawn: bool)
        ensures
            spawn == !old(self).is_fetching_latest,
            *final(self) == (App { is_fetching_latest: true, ..*old(self) }),
    {
        if self.is_fetching_latest {
            return false;
        }
        self.is_fetching_latest = true;
        true
    }

    /// Marks a fetch of the market indices as started; `false` when one is
    /// already outstanding.
    pub fn fetch_stats(&mut self) -> (spawn: bool)
        ensures
            spawn == !old(self).is_fetching_stats,
            *final(self) == (App { is_fetching_stats: true, ..*old(self) }),
    {
        if self.is_fetching_stats {
            return false;
        }
        self.is_fetching_stats = true;
        true
    }

    /// Raises a notice, stamped with `now`.
    pub fn show_message(&mut self, msg: String, msg_type: MsgType, now: i64)
        ensures
            final(self).msg_spec.msg@ == msg@,
            final(self).msg_spec.msg_type == msg_type,
            final(self).msg_spec.timestamp == now,
            *final(self) == (App { msg_spec: final(self).msg_spec, ..*old(self) }),
    {
        self.msg_spec.msg = msg;
        self.msg_spec.msg_type = msg_type;
        self.msg_spec.timestamp = now;
    }

    /// Adopts a fetched snapshot of the latest quotes at time `now`.
    pub fn adopt_latest(&mut self, item: Latest, now: i64)
        requires
            old(self).latest_setting.wf(),
        ensures
            adopts_latest(*old(self), *final(self), item, now),
            item.status.error_message is Some ==> final(self).latest == old(self).latest,
            item.status.error_message is None && item.data@.len() == 0 ==> final(self).latest == old(self).latest,
            final(self).latest_setting == old(self).latest_setting,
    {
        let ghost before = *self;
        match &item.status.error_message {
            Some(e) => {
                let m = e.clone();
                self.show_message(m, MsgType::Warn, now);
            },
            None => {
                if item.data.len() > 0 {
                    self.latest = item;
                    latest::update_addition_info(self, now);
                    let key = self.latest_setting.sort_key;
                    latest::sort_by_key(self, key, false);
                }
            },
        }
    }

    /// Applies one message drained from the workers' channel: its dataset is
    /// no longer in flight, and its content is adopted or raised as a notice,
    /// stamped with `now`.
    pub fn update_data(&mut self, item: ChannelItem, now: i64)
        requires
            old(self).latest_setting.wf(),
        ensures
            final(self).latest_setting.wf(),
            !in_flight(*final(self), message_kind(item)),
            drains(*old(self), with_flight(*final(self), message_kind(item), in_flight(*old(self), message_kind(item))), item, now),
    {
        match item {
            ChannelItem::ErrMsg(panel, msg) => {
                match panel {
                    CurrentPanel::Latest => self.is_fetching_latest = false,
                    CurrentPanel::Trending => self.is_fetching_trending = false,
                    CurrentPanel::Stats => self.is_fetching_stats = false,
                    CurrentPanel::About => {},
                }
                self.show_message(msg, MsgType::Warn, now);
            },
            ChannelItem::Item(inner) => match inner {
                ChannelInnerItem::Latest(l) => {
                    self.adopt_latest(l, now);
                    self.is_fetching_latest = false;
                },
                ChannelInnerItem::Trending => {
                    self.is_fetching_trending = false;
                },
                ChannelInnerItem::Stats(st) => {
                    if st.errors.len() > 0 {
                        let text = st.error_text();
                        self.show_message(text, MsgType::Warn, now);
                    } else {
                        self.stats = st;
                    }
                    self.is_fetching_stats = false;
                },
            },
        }
    }

    /// Whether the notice is still shown at `now`.
    pub fn is_message_shown(&self, now: i64) -> (r: bool)
        ensures
            r == message_shown(now as int, self.msg_spec.timestamp as int),
    {
        timelapse(now, self.msg_spec.timestamp) < MESSAGE_SECONDS
    }
}

} // verus!
