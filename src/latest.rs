//! The latest-quotes dataset: assets, derived statistics, the starred
//! symbols and the ordering of the list.
use crate::app::App;
use crate::cache::{json_of_texts, texts_from_json, texts_of_json, texts_to_json};
use crate::order::{
    char_codes, codes_of, ints, lemma_char_codes_injective, lemma_lex_asymmetric,
    lemma_lex_irreflexive, lemma_lex_total, lemma_lex_transitive, lex_less, lex_lt, text_lt,
};
use vstd::prelude::*;

verus! {

/// What the list can be ordered by.
#[derive(Copy, Clone, Debug, PartialEq, Eq, Structural)]
pub enum SortKey {
    Marker,
    Rank,
    Symbol,
    Price,
    H24,
    D7,
}

impl Default for SortKey {
    fn default() -> (r: Self)
        ensures
            r == SortKey::Rank,
    {
        SortKey::Rank
    }
}

/// Quote figures in hundred-millionths (a value times 10^8, to the nearest unit);
/// `None` stands for a figure that is not a number.
#[derive(Copy, Clone, Debug, PartialEq, Eq, Structural)]
pub struct LatestDataItemQuoteUSD {
    pub price: Option<i64>,
    pub percent_change_24h: Option<i64>,
    pub percent_change_7d: Option<i64>,
}

#[derive(Copy, Clone, Debug, PartialEq, Eq, Structural)]
pub struct LatestDataItemQuote {
    pub usd: LatestDataItemQuoteUSD,
}

/// One asset of a snapshot.
#[derive(Clone, Debug)]
pub struct LatestDataItem {
    pub id: u64,
    pub symbol: String,
    pub rank: u32,
    pub quote: LatestDataItemQuote,
}

/// What a snapshot says of itself: when it was taken, and the error the
/// server reported, if any.
#[derive(Clone, Debug)]
pub struct LatestStatus {
    pub timestamp: String,
    pub error_message: Option<String>,
}

/// Figures derived from a snapshot's assets.
#[derive(Copy, Clone, Debug, PartialEq, Eq, Structural)]
pub struct AdditionInfo {
    pub h24_up_count: usize,
    pub d7_up_count: usize,
    pub timestamp: i64,
}

/// One snapshot of the latest quotes.
#[derive(Clone, Debug)]
pub struct Latest {
    pub status: LatestStatus,
    pub data: Vec<LatestDataItem>,
    pub addition_info: AdditionInfo,
}

impl Latest {
    /// An empty snapshot without error.
    pub fn new() -> (r: Self)
        ensures
            r.data@.len() == 0,
            r.status.error_message is None,
            r.status.timestamp@.len() == 0,
            r.addition_info == (AdditionInfo { h24_up_count: 0, d7_up_count: 0, timestamp: 0 }),
    {
        Latest {
            status: LatestStatus { timestamp: String::new(), error_message: None },
            data: Vec::new(),
            addition_info: AdditionInfo { h24_up_count: 0, d7_up_count: 0, timestamp: 0 },
        }
    }

    /// Whether the snapshot may replace the cached one: a snapshot that
    /// carries a server error never does.
    pub fn is_cacheable(&self) -> (r: bool)
        ensures
            r == self.status.error_message is None,
    {
        self.status.error_message.is_none()
    }
}

/// The mathematical value of an asset.
pub struct AssetView {
    pub id: u64,
    pub symbol: Seq<char>,
    pub rank: u32,
    pub price: Option<i64>,
    pub h24: Option<i64>,
    pub d7: Option<i64>,
}

impl View for LatestDataItem {
    type V = AssetView;

    open spec fn view(&self) -> AssetView {
        AssetView {
            id: self.id,
            symbol: self.symbol@,
            rank: self.rank,
            price: self.quote.usd.price,
            h24: self.quote.usd.percent_change_24h,
            d7: self.quote.usd.percent_change_7d,
        }
    }
}

/// The asset values of a sequence of items.
pub open spec fn assets(v: Seq<LatestDataItem>) -> Seq<AssetView> {
    v.map_values(|a: LatestDataItem| a@)
}

/// The texts held by a sequence of strings.
pub open spec fn texts(v: Seq<String>) -> Seq<Seq<char>> {
    v.map_values(|s: String| s@)
}

/// Each text strictly before the next: sorted, without repeats.
pub open spec fn strictly_sorted(m: Seq<Seq<char>>) -> bool {
    forall|i: int, j: int| 0 <= i < j < m.len() ==> text_lt(#[trigger] m[i], #[trigger] m[j])
}

/// The starred set after flipping the membership of `s`.
pub open spec fn toggle_set(m: Set<Seq<char>>, s: Seq<char>) -> Set<Seq<char>> {
    if m.contains(s) {
        m.remove(s)
    } else {
        m.insert(s)
    }
}

/// The upper-case form of a text, as `str::to_uppercase` gives it.
pub uninterp spec fn upper_of(s: Seq<char>) -> Seq<char>;

/// Relies on `str::to_uppercase`: the upper-case form of a text, which
/// depends on its characters alone.
#[verifier::external_body]
fn uppercase(s: &str) -> (r: String)
    ensures
        r@ == upper_of(s@),
{
    s.to_uppercase()
}

/// Order key of a quote figure: a figure that is not a number comes before
/// every number.
pub open spec fn figure_key(v: Option<i64>) -> Seq<int> {
    match v {
        None => seq![0],
        Some(x) => seq![1, x as int],
    }
}

/// 0 for a starred asset, 1 for the others.
pub open spec fn group_of(marks: Set<Seq<char>>, a: AssetView) -> int {
    if marks.contains(a.symbol) {
        0
    } else {
        1
    }
}

/// The key an asset is ordered by, compared lexicographically.
/// `Marker` orders starred symbols first and by rank within each group;
/// `grouping::lemma_marker_two_pass` shows this is a stable sort by rank
/// followed by a stable sort on starred-ness.
pub open spec fn sort_key_of(k: SortKey, marks: Set<Seq<char>>, a: AssetView) -> Seq<int> {
    match k {
        SortKey::Marker => seq![group_of(marks, a), a.rank as int],
        SortKey::Rank => seq![a.rank as int],
        SortKey::Symbol => char_codes(upper_of(a.symbol)),
        SortKey::Price => figure_key(a.price),
        SortKey::H24 => figure_key(a.h24),
        SortKey::D7 => figure_key(a.d7),
    }
}

pub open spec fn key_fn(k: SortKey, marks: Set<Seq<char>>) -> spec_fn(AssetView) -> Seq<int> {
    |a: AssetView| sort_key_of(k, marks, a)
}

/// Where a stable insertion puts `x` into `t`: after the last element whose
/// key is not greater than `x`'s.
pub open spec fn insert_pos(t: Seq<AssetView>, x: AssetView, kf: spec_fn(AssetView) -> Seq<int>) -> int
    decreases t.len(),
{
    if t.len() == 0 {
        0
    } else if lex_lt(kf(x), kf(t.last())) {
        insert_pos(t.drop_last(), x, kf)
    } else {
        t.len() as int
    }
}

/// The stable sort of `s` by `kf`: elements with equal keys keep their
/// relative order.
pub open spec fn sorted_by(s: Seq<AssetView>, kf: spec_fn(AssetView) -> Seq<int>) -> Seq<AssetView>
    decreases s.len(),
{
    if s.len() == 0 {
        s
    } else {
        let t = sorted_by(s.drop_last(), kf);
        t.insert(insert_pos(t, s.last(), kf), s.last())
    }
}

/// No element has a key smaller than an element before it.
pub open spec fn is_sorted_by(s: Seq<AssetView>, kf: spec_fn(AssetView) -> Seq<int>) -> bool {
    forall|i: int, j: int| 0 <= i < j < s.len() ==> !lex_lt(kf(#[trigger] s[j]), kf(#[trigger] s[i]))
}

pub proof fn lemma_insert_pos(t: Seq<AssetView>, x: AssetView, kf: spec_fn(AssetView) -> Seq<int>)
    ensures
        0 <= insert_pos(t, x, kf) <= t.len(),
        forall|j: int| insert_pos(t, x, kf) <= j < t.len() ==> lex_lt(kf(x), kf(#[trigger] t[j])),
        insert_pos(t, x, kf) > 0 ==> !lex_lt(kf(x), kf(t[insert_pos(t, x, kf) - 1])),
    decreases t.len(),
{
    if t.len() > 0 && lex_lt(kf(x), kf(t.last())) {
        let d = t.drop_last();
        lemma_insert_pos(d, x, kf);
        assert forall|j: int| insert_pos(t, x, kf) <= j < t.len() implies lex_lt(kf(x), kf(#[trigger] t[j])) by {
            if j < d.len() {
                assert(d[j] == t[j]);
            }
        }
    }
}

/// The stable sort keeps the length and is sorted.
pub proof fn lemma_sorted_by_sorted(s: Seq<AssetView>, kf: spec_fn(AssetView) -> Seq<int>)
    ensures
        sorted_by(s, kf).len() == s.len(),
        is_sorted_by(sorted_by(s, kf), kf),
    decreases s.len(),
{
    if s.len() > 0 {
        let t = sorted_by(s.drop_last(), kf);
        let x = s.last();
        lemma_sorted_by_sorted(s.drop_last(), kf);
        lemma_insert_pos(t, x, kf);
        let p = insert_pos(t, x, kf);
        let r = t.insert(p, x);
        assert forall|i: int, j: int| 0 <= i < j < r.len() implies !lex_lt(kf(#[trigger] r[j]), kf(#[trigger] r[i])) by {
            if j < p {
                assert(r[i] == t[i] && r[j] == t[j]);
            } else if j == p {
                assert(r[i] == t[i]);
                assert(!lex_lt(kf(x), kf(t[p - 1])));
                if i < p - 1 {
                    assert(!lex_lt(kf(t[p - 1]), kf(t[i])));
                    crate::order::lemma_lex_le_transitive(kf(t[i]), kf(t[p - 1]), kf(x));
                }
            } else if i == p {
                assert(r[j] == t[j - 1]);
                assert(lex_lt(kf(x), kf(t[j - 1])));
                lemma_lex_asymmetric(kf(x), kf(t[j - 1]));
            } else if i < p {
                assert(r[i] == t[i] && r[j] == t[j - 1]);
            } else {
                assert(r[i] == t[i - 1] && r[j] == t[j - 1]);
            }
        }
    }
}

/// The stable sort rearranges: it neither loses nor adds an element.
pub proof fn lemma_sorted_by_permutes(s: Seq<AssetView>, kf: spec_fn(AssetView) -> Seq<int>)
    ensures
        sorted_by(s, kf).to_multiset() == s.to_multiset(),
    decreases s.len(),
{
    if s.len() > 0 {
        let d = s.drop_last();
        let x = s.last();
        let t = sorted_by(d, kf);
        lemma_sorted_by_permutes(d, kf);
        lemma_insert_pos(t, x, kf);
        let p = insert_pos(t, x, kf);
        let u = t.insert(p, x);
        assert(u.remove(p) =~= t);
        u.to_multiset_ensures();
        d.to_multiset_ensures();
        assert(d.push(x) =~= s);
        assert(u.contains(x)) by {
            assert(u[p] == x);
        }
        assert(u.to_multiset() =~= t.to_multiset().insert(x));
    }
}

/// Stable-sorting a sorted sequence leaves it as it is.
pub proof fn lemma_sorted_by_of_sorted(s: Seq<AssetView>, kf: spec_fn(AssetView) -> Seq<int>)
    requires
        is_sorted_by(s, kf),
    ensures
        sorted_by(s, kf) == s,
    decreases s.len(),
{
    if s.len() > 0 {
        let d = s.drop_last();
        assert(is_sorted_by(d, kf)) by {
            assert forall|i: int, j: int| 0 <= i < j < d.len() implies !lex_lt(kf(#[trigger] d[j]), kf(#[trigger] d[i])) by {
                assert(d[i] == s[i] && d[j] == s[j]);
            }
        }
        lemma_sorted_by_of_sorted(d, kf);
        if d.len() > 0 {
            assert(!lex_lt(kf(s[s.len() - 1]), kf(s[s.len() - 2])));
        }
        assert(insert_pos(d, s.last(), kf) == d.len());
        assert(d.insert(d.len() as int, s.last()) =~= s);
    }
}

/// Stable-sorting twice by the same key is stable-sorting once.
pub proof fn lemma_sorted_by_idempotent(s: Seq<AssetView>, kf: spec_fn(AssetView) -> Seq<int>)
    ensures
        sorted_by(sorted_by(s, kf), kf) == sorted_by(s, kf),
{
    lemma_sorted_by_sorted(s, kf);
    lemma_sorted_by_of_sorted(sorted_by(s, kf), kf);
}

/// A quote figure that is a number at or above zero.
pub open spec fn is_up(v: Option<i64>) -> bool {
    v matches Some(x) && x >= 0
}

/// How many assets rose (or held) over 24 hours.
pub open spec fn count_h24_up(s: Seq<AssetView>) -> nat
    decreases s.len(),
{
    if s.len() == 0 {
        0
    } else {
        count_h24_up(s.drop_last()) + if is_up(s.last().h24) { 1nat } else { 0nat }
    }
}

/// How many assets rose (or held) over 7 days.
pub open spec fn count_d7_up(s: Seq<AssetView>) -> nat
    decreases s.len(),
{
    if s.len() == 0 {
        0
    } else {
        count_d7_up(s.drop_last()) + if is_up(s.last().d7) { 1nat } else { 0nat }
    }
}

/// The order after a click on `key` when the list is ordered by `current`:
/// a repeated click with `is_reverse` turns the list around, anything else
/// sorts afresh.
pub open spec fn sort_result(
    d: Seq<AssetView>,
    current: SortKey,
    marks: Set<Seq<char>>,
    key: SortKey,
    is_reverse: bool,
) -> Seq<AssetView> {
    if is_reverse && current == key {
        d.reverse()
    } else {
        sorted_by(d, key_fn(key, marks))
    }
}

/// After a sort by `key`, a second click on `key` gives the exact reverse
/// of that order, and a third gives the order back.
pub proof fn lemma_toggle_reverses(
    d: Seq<AssetView>,
    current: SortKey,
    marks: Set<Seq<char>>,
    key: SortKey,
    first_reverse: bool,
)
    ensures
        sort_result(sort_result(d, current, marks, key, first_reverse), key, marks, key, true)
            == sort_result(d, current, marks, key, first_reverse).reverse(),
        sort_result(
            sort_result(sort_result(d, current, marks, key, first_reverse), key, marks, key, true),
            key,
            marks,
            key,
            true,
        ) == sort_result(d, current, marks, key, first_reverse),
{
    let first = sort_result(d, current, marks, key, first_reverse);
    assert(first.reverse().reverse() =~= first);
}

/// The default order (starred first, then by rank) is a fixed point: applied
/// to its own output with the same starred set it changes nothing.
pub proof fn lemma_marker_sort_idempotent(d: Seq<AssetView>, current: SortKey, marks: Set<Seq<char>>)
    ensures
        sort_result(sort_result(d, current, marks, SortKey::Marker, false), SortKey::Marker, marks, SortKey::Marker, false)
            == sort_result(d, current, marks, SortKey::Marker, false),
{
    lemma_sorted_by_idempotent(d, key_fn(SortKey::Marker, marks));
}

/// Symbols longer than this are cut in the list.
pub const SYMBOL_WIDTH: usize = 6;

/// A symbol as the list shows it: its first six characters.
pub fn display_symbol(symbol: &str) -> (r: String)
    ensures
        symbol@.len() <= 6 ==> r@ == symbol@,
        symbol@.len() > 6 ==> r@ == symbol@.subrange(0, 6),
{
    let n = symbol.unicode_len();
    if n <= SYMBOL_WIDTH {
        return symbol.to_owned();
    }
    symbol.substring_char(0, SYMBOL_WIDTH).to_owned()
}

/// Recounts the rising assets of the current snapshot and stamps the count
/// with `now`.
pub fn update_addition_info(app: &mut App, now: i64)
    ensures
        final(app).latest.addition_info.timestamp == now,
        final(app).latest.addition_info.h24_up_count == count_h24_up(assets(old(app).latest.data@)),
        final(app).latest.addition_info.d7_up_count == count_d7_up(assets(old(app).latest.data@)),
        *final(app) == (App {
            latest: Latest { addition_info: final(app).latest.addition_info, ..old(app).latest },
            ..*old(app)
        }),
{
    let ghost d = assets(app.latest.data@);
    let mut h24: usize = 0;
    let mut d7: usize = 0;
    let mut i: usize = 0;
    while i < app.latest.data.len()
        invariant
            d == assets(app.latest.data@),
            i <= app.latest.data@.len(),
            h24 == count_h24_up(d.subrange(0, i as int)),
            d7 == count_d7_up(d.subrange(0, i as int)),
            h24 <= i,
            d7 <= i,
        decreases app.latest.data@.len() - i,
    {
        let q = app.latest.data[i].quote.usd;
        assert(d.subrange(0, i + 1).drop_last() =~= d.subrange(0, i as int));
        assert(d[i as int] == app.latest.data@[i as int]@);
        match q.percent_change_24h {
            Some(x) => if x >= 0 {
                h24 = h24 + 1;
            },
            None => {},
        }
        match q.percent_change_7d {
            Some(x) => if x >= 0 {
                d7 = d7 + 1;
            },
            None => {},
        }
        i = i + 1;
    }
    assert(d.subrange(0, i as int) =~= d);
    app.latest.addition_info.h24_up_count = h24;
    app.latest.addition_info.d7_up_count = d7;
    app.latest.addition_info.timestamp = now;
}

/// Orders the list by `key`. A repeated click on the active key with
/// `is_reverse` turns the list around in place instead of sorting again.
pub fn sort_by_key(app: &mut App, key: SortKey, is_reverse: bool)
    requires
        old(app).latest_setting.wf(),
    ensures
        assets(final(app).latest.data@) == sort_result(
            assets(old(app).latest.data@),
            old(app).latest_setting.sort_key,
            old(app).latest_setting.marked_set(),
            key,
            is_reverse,
        ),
        *final(app) == (App {
            latest: Latest { data: final(app).latest.data, ..old(app).latest },
            latest_setting: Setting { sort_key: key, ..old(app).latest_setting },
            ..*old(app)
        }),
{
    let mut data: Vec<LatestDataItem> = Vec::new();
    std::mem::swap(&mut data, &mut app.latest.data);
    if is_reverse && app.latest_setting.sort_key == key {
        app.latest.data = reversed(data);
        proof {
            assert(assets(app.latest.data@) =~= assets(old(app).latest.data@).reverse());
        }
        return;
    }
    app.latest_setting.sort_key = key;
    app.latest.data = sort_items(data, key, &app.latest_setting);
}

/// Toggles the star of `symbol` and returns the JSON text to persist for
/// the starred set; the list keeps its order until it is sorted again.
pub fn update_marker_symbols(app: &mut App, symbol: &str) -> (r: String)
    requires
        old(app).latest_setting.wf(),
    ensures
        final(app).latest_setting.wf(),
        final(app).latest_setting.marked_set() == toggle_set(old(app).latest_setting.marked_set(), symbol@),
        r@ == json_of_texts(final(app).latest_setting.marks()),
        *final(app) == (App { latest_setting: final(app).latest_setting, ..*old(app) }),
        final(app).latest_setting.sort_key == old(app).latest_setting.sort_key,
{
    app.latest_setting.toggle_mark(symbol);
    app.latest_setting.marker_symbols_json()
}

/// Startup: adopts the cached snapshot and the persisted starred symbols
/// when they were found and could be read, recounts (stamped with `now`),
/// and applies the default order.
pub fn init(app: &mut App, cached: Option<Latest>, marker_text: Option<&str>, now: i64)
    requires
        old(app).latest_setting.wf(),
    ensures
        final(app).latest_setting.wf(),
        final(app).latest_setting.sort_key == SortKey::Marker,
        *final(app) == (App { latest: final(app).latest, latest_setting: final(app).latest_setting, ..*old(app) }),
        match marker_text {
            Some(t) => match texts_of_json(t@) {
                Some(l) => final(app).latest_setting.marked_set() == l.to_set(),
                None => final(app).latest_setting.marks() == old(app).latest_setting.marks(),
            },
            None => final(app).latest_setting.marks() == old(app).latest_setting.marks(),
        },
        ({
            let src = match cached {
                Some(l) => l,
                None => old(app).latest,
            };
            &&& final(app).latest.status == src.status
            &&& assets(final(app).latest.data@) == sorted_by(
                assets(src.data@),
                key_fn(SortKey::Marker, final(app).latest_setting.marked_set()),
            )
            &&& final(app).latest.addition_info.h24_up_count == count_h24_up(assets(src.data@))
            &&& final(app).latest.addition_info.d7_up_count == count_d7_up(assets(src.data@))
            &&& final(app).latest.addition_info.timestamp == now
        }),
{
    match cached {
        Some(l) => app.latest = l,
        None => {},
    }
    match marker_text {
        Some(t) => {
            app.latest_setting.load_marker_symbols(t);
        },
        None => {},
    }
    update_addition_info(app, now);
    sort_by_key(app, SortKey::Marker, false);
}

/// The items of a keyed sequence.
pub open spec fn keyed_assets(v: Seq<(Vec<i64>, LatestDataItem)>) -> Seq<AssetView> {
    v.map_values(|p: (Vec<i64>, LatestDataItem)| p.1@)
}

fn figure_key_vec(v: Option<i64>) -> (r: Vec<i64>)
    ensures
        ints(r@) == figure_key(v),
{
    match v {
        None => {
            let r: Vec<i64> = vec![0];
            assert(ints(r@) =~= figure_key(v));
            r
        },
        Some(x) => {
            let r: Vec<i64> = vec![1, x];
            assert(ints(r@) =~= figure_key(v));
            r
        },
    }
}

/// The order key of one item.
fn item_key(key: SortKey, setting: &Setting, item: &LatestDataItem) -> (r: Vec<i64>)
    ensures
        ints(r@) == sort_key_of(key, setting.marked_set(), item@),
{
    match key {
        SortKey::Marker => {
            let group: i64 = if setting.is_marked(item.symbol.as_str()) { 0 } else { 1 };
            let r: Vec<i64> = vec![group, item.rank as i64];
            assert(ints(r@) =~= sort_key_of(key, setting.marked_set(), item@));
            r
        },
        SortKey::Rank => {
            let r: Vec<i64> = vec![item.rank as i64];
            assert(ints(r@) =~= sort_key_of(key, setting.marked_set(), item@));
            r
        },
        SortKey::Symbol => {
            let upper = uppercase(item.symbol.as_str());
            codes_of(upper.as_str())
        },
        SortKey::Price => figure_key_vec(item.quote.usd.price),
        SortKey::H24 => figure_key_vec(item.quote.usd.percent_change_24h),
        SortKey::D7 => figure_key_vec(item.quote.usd.percent_change_7d),
    }
}

/// Stable sort of `data` by the key `key` names.
pub fn sort_items(data: Vec<LatestDataItem>, key: SortKey, setting: &Setting) -> (r: Vec<LatestDataItem>)
    ensures
        assets(r@) == sorted_by(assets(data@), key_fn(key, setting.marked_set())),
        is_sorted_by(assets(r@), key_fn(key, setting.marked_set())),
        assets(r@).to_multiset() == assets(data@).to_multiset(),
        key == SortKey::Marker ==> assets(r@) == sorted_by(
            sorted_by(assets(data@), key_fn(SortKey::Rank, setting.marked_set())),
            crate::grouping::group_key(setting.marked_set()),
        ),
{
    proof {
        crate::grouping::lemma_marker_two_pass(assets(data@), setting.marked_set());
        lemma_sorted_by_sorted(assets(data@), key_fn(key, setting.marked_set()));
        lemma_sorted_by_permutes(assets(data@), key_fn(key, setting.marked_set()));
    }
    let ghost kf = key_fn(key, setting.marked_set());
    let ghost orig = assets(data@);
    let n = data.len();
    let mut src = data;
    let mut keyed: Vec<(Vec<i64>, LatestDataItem)> = Vec::new();
    let mut i: usize = 0;
    while src.len() > 0
        invariant
            n == orig.len(),
            i + src@.len() == n,
            assets(src@) == orig.subrange(i as int, n as int),
            keyed_assets(keyed@) == sorted_by(orig.subrange(0, i as int), kf),
            forall|j: int| 0 <= j < keyed@.len() ==> ints(#[trigger] keyed@[j].0@) == kf(keyed@[j].1@),
            kf == key_fn(key, setting.marked_set()),
        decreases src@.len(),
    {
        let ghost before = src@;
        let item = src.remove(0);
        assert(item@ == orig[i as int]) by {
            assert(assets(before)[0] == before[0]@);
        }
        assert(assets(src@) =~= orig.subrange(i + 1, n as int)) by {
            assert forall|j: int| 0 <= j < src@.len() implies assets(src@)[j] == orig.subrange(i + 1, n as int)[j] by {
                assert(src@[j] == before[j + 1]);
                assert(assets(before)[j + 1] == before[j + 1]@);
            }
        }
        let k = item_key(key, setting, &item);
        let ghost t = keyed_assets(keyed@);
        let mut p: usize = keyed.len();
        assert(t.subrange(0, p as int) =~= t);
        while p > 0 && lex_less(&k, &keyed[p - 1].0)
            invariant
                p <= keyed@.len(),
                t == keyed_assets(keyed@),
                insert_pos(t, item@, kf) == insert_pos(t.subrange(0, p as int), item@, kf),
                ints(k@) == kf(item@),
                forall|j: int| 0 <= j < keyed@.len() ==> ints(#[trigger] keyed@[j].0@) == kf(keyed@[j].1@),
            decreases p,
        {
            assert(t.subrange(0, p as int).drop_last() =~= t.subrange(0, p - 1));
            assert(t[p - 1] == keyed@[p - 1].1@);
            p = p - 1;
        }
        if p > 0 {
            assert(t[p - 1] == keyed@[p - 1].1@);
            assert(t.subrange(0, p as int).last() == t[p - 1]);
        }
        assert(insert_pos(t, item@, kf) == p);
        let ghost x = item@;
        keyed.insert(p, (k, item));
        i = i + 1;
        assert(orig.subrange(0, i as int).drop_last() =~= orig.subrange(0, i - 1));
        assert(keyed_assets(keyed@) =~= t.insert(p as int, x));
    }
    assert(orig.subrange(0, n as int) =~= orig);
    let ghost full = keyed_assets(keyed@);
    let mut r: Vec<LatestDataItem> = Vec::new();
    while keyed.len() > 0
        invariant
            assets(r@) + keyed_assets(keyed@) == full,
        decreases keyed@.len(),
    {
        let ghost before = keyed@;
        let pair = keyed.remove(0);
        let ghost prev = r@;
        r.push(pair.1);
        assert(assets(r@) + keyed_assets(keyed@) =~= assets(prev) + keyed_assets(before)) by {
            assert(assets(r@) =~= assets(prev).push(pair.1@));
            assert(keyed_assets(before) =~= seq![pair.1@] + keyed_assets(keyed@));
        }
    }
    assert(keyed_assets(keyed@) =~= Seq::<AssetView>::empty());
    assert(assets(r@) =~= full);
    r
}

/// The items of `data` in reverse order.
pub fn reversed(data: Vec<LatestDataItem>) -> (r: Vec<LatestDataItem>)
    ensures
        r@ == data@.reverse(),
{
    let n = data.len();
    let ghost orig = data@;
    let mut src = data;
    let mut r: Vec<LatestDataItem> = Vec::new();
    while src.len() > 0
        invariant
            r@.len() + src@.len() == n,
            n == orig.len(),
            src@ == orig.subrange(0, src@.len() as int),
            forall|j: int| 0 <= j < r@.len() ==> r@[j] == orig[n - 1 - j],
        decreases src@.len(),
    {
        let x = src.pop().unwrap();
        r.push(x);
        assert(src@ =~= orig.subrange(0, src@.len() as int));
    }
    assert(r@ =~= orig.reverse());
    r
}

/// Two sorted lists of the same texts are the same list.
pub proof fn lemma_sorted_texts_unique(a: Seq<Seq<char>>, b: Seq<Seq<char>>)
    requires
        strictly_sorted(a),
        strictly_sorted(b),
        a.to_set() == b.to_set(),
    ensures
        a == b,
    decreases a.len(),
{
    if a.len() == 0 {
        if b.len() > 0 {
            assert(b.to_set().contains(b[0]));
        }
        assert(a =~= b);
    } else if b.len() == 0 {
        assert(a.to_set().contains(a[0]));
    } else {
        assert(a.to_set().contains(a[0]));
        assert(b.to_set().contains(b[0]));
        let j = choose|j: int| 0 <= j < b.len() && b[j] == a[0];
        let k = choose|k: int| 0 <= k < a.len() && a[k] == b[0];
        if j > 0 {
            assert(text_lt(b[0], b[j]));
            lemma_lex_irreflexive(char_codes(a[0]));
            if k > 0 {
                assert(text_lt(a[0], a[k]));
                lemma_lex_asymmetric(char_codes(a[0]), char_codes(a[k]));
            }
        }
        assert(a[0] == b[0]);
        let a1 = a.drop_first();
        let b1 = b.drop_first();
        assert forall|x: Seq<char>| a1.to_set().contains(x) == b1.to_set().contains(x) by {
            if a1.to_set().contains(x) {
                let i = choose|i: int| 0 <= i < a1.len() && a1[i] == x;
                assert(text_lt(a[0], a[i + 1]));
                lemma_lex_irreflexive(char_codes(a[0]));
                assert(a.to_set().contains(x));
                let i2 = choose|i2: int| 0 <= i2 < b.len() && b[i2] == x;
                assert(b1[i2 - 1] == x);
            }
            if b1.to_set().contains(x) {
                let i = choose|i: int| 0 <= i < b1.len() && b1[i] == x;
                assert(text_lt(b[0], b[i + 1]));
                lemma_lex_irreflexive(char_codes(b[0]));
                assert(b.to_set().contains(x));
                let i2 = choose|i2: int| 0 <= i2 < a.len() && a[i2] == x;
                assert(a1[i2 - 1] == x);
            }
        }
        assert(a1.to_set() =~= b1.to_set());
        assert(strictly_sorted(a1)) by {
            assert forall|i: int, j: int| 0 <= i < j < a1.len() implies text_lt(#[trigger] a1[i], #[trigger] a1[j]) by {
                assert(text_lt(a[i + 1], a[j + 1]));
            }
        }
        assert(strictly_sorted(b1)) by {
            assert forall|i: int, j: int| 0 <= i < j < b1.len() implies text_lt(#[trigger] b1[i], #[trigger] b1[j]) by {
                assert(text_lt(b[i + 1], b[j + 1]));
            }
        }
        lemma_sorted_texts_unique(a1, b1);
        assert(a =~= b) by {
            assert forall|i: int| 0 <= i < a.len() implies a[i] == b[i] by {
                if i > 0 {
                    assert(a1[i - 1] == b1[i - 1]);
                }
            }
        }
    }
}

/// Starring a symbol and then un-starring it (or the reverse) gives back the
/// starred list exactly: the same symbols in the same order, hence the same
/// persisted text.
pub proof fn lemma_toggle_mark_twice(before: Setting, once: Setting, twice: Setting, symbol: Seq<char>)
    requires
        before.wf(),
        once.wf(),
        twice.wf(),
        once.marked_set() == toggle_set(before.marked_set(), symbol),
        twice.marked_set() == toggle_set(once.marked_set(), symbol),
    ensures
        twice.marks() == before.marks(),
        twice.marked_set() == before.marked_set(),
{
    let m = before.marked_set();
    if m.contains(symbol) {
        assert(m.remove(symbol).insert(symbol) =~= m);
    } else {
        assert(m.insert(symbol).remove(symbol) =~= m);
    }
    lemma_sorted_texts_unique(twice.marks(), before.marks());
}

/// Per-list settings: the active ordering and the starred symbols.
#[derive(Clone, Debug)]
pub struct Setting {
    pub sort_key: SortKey,
    pub marker_symbols: Vec<String>,
}

impl Setting {
    /// The starred symbols, in ascending text order.
    pub open spec fn marks(&self) -> Seq<Seq<char>> {
        texts(self.marker_symbols@)
    }

    /// The starred symbols as a set.
    pub open spec fn marked_set(&self) -> Set<Seq<char>> {
        self.marks().to_set()
    }

    /// The starred list is kept sorted, which also keeps it free of repeats
    /// and makes its content a function of the set alone.
    pub open spec fn wf(&self) -> bool {
        strictly_sorted(self.marks())
    }

    /// Default ordering by rank, nothing starred.
    pub fn new() -> (r: Self)
        ensures
            r.wf(),
            r.sort_key == SortKey::Rank,
            r.marks() == Seq::<Seq<char>>::empty(),
    {
        let r = Setting { sort_key: SortKey::Rank, marker_symbols: Vec::new() };
        assert(r.marks() =~= Seq::<Seq<char>>::empty());
        r
    }

    /// Whether `symbol` is starred.
    pub fn is_marked(&self, symbol: &str) -> (r: bool)
        ensures
            r == self.marked_set().contains(symbol@),
    {
        let t = symbol.to_owned();
        let mut i: usize = 0;
        while i < self.marker_symbols.len()
            invariant
                i <= self.marker_symbols@.len(),
                t@ == symbol@,
                forall|j: int| 0 <= j < i ==> self.marks()[j] != symbol@,
            decreases self.marker_symbols@.len() - i,
        {
            if self.marker_symbols[i] == t {
                assert(self.marks()[i as int] == symbol@);
                return true;
            }
            i = i + 1;
        }
        false
    }

    /// Stars every symbol of `list` (repeats collapse), keeping the ordering.
    pub fn mark_all(&mut self, list: &Vec<String>)
        requires
            old(self).wf(),
        ensures
            final(self).wf(),
            final(self).sort_key == old(self).sort_key,
            final(self).marked_set() == old(self).marked_set().union(texts(list@).to_set()),
    {
        let mut i: usize = 0;
        while i < list.len()
            invariant
                self.wf(),
                self.sort_key == old(self).sort_key,
                i <= list@.len(),
                self.marked_set() == old(self).marked_set().union(texts(list@.subrange(0, i as int)).to_set()),
            decreases list@.len() - i,
        {
            let ghost before = self.marked_set();
            let ghost t = list@[i as int]@;
            if !self.is_marked(list[i].as_str()) {
                self.toggle_mark(list[i].as_str());
            }
            assert(self.marked_set() =~= before.insert(t));
            i = i + 1;
            assert(texts(list@.subrange(0, i as int)) =~= texts(list@.subrange(0, i - 1)).push(t));
            let ghost cur = texts(list@.subrange(0, i as int));
            let ghost prev = texts(list@.subrange(0, i - 1));
            assert forall|x: Seq<char>| cur.to_set().contains(x) == prev.to_set().insert(t).contains(x) by {
                if cur.contains(x) {
                    let j = choose|j: int| 0 <= j < cur.len() && cur[j] == x;
                    if j < prev.len() {
                        assert(prev[j] == x);
                    }
                }
                if prev.contains(x) {
                    let j = choose|j: int| 0 <= j < prev.len() && prev[j] == x;
                    assert(cur[j] == x);
                }
                if x == t {
                    assert(cur[i - 1] == x);
                }
            }
            assert(cur.to_set() =~= prev.to_set().insert(t));
            assert(self.marked_set() =~= old(self).marked_set().union(texts(list@.subrange(0, i as int)).to_set()));
        }
        assert(list@.subrange(0, i as int) =~= list@);
    }

    /// Replaces the starred symbols by those of a persisted JSON list; leaves
    /// them as they were when the text holds no list of strings.
    pub fn load_marker_symbols(&mut self, text: &str) -> (ok: bool)
        requires
            old(self).wf(),
        ensures
            final(self).wf(),
            final(self).sort_key == old(self).sort_key,
            ok == texts_of_json(text@) is Some,
            match texts_of_json(text@) {
                Some(l) => final(self).marked_set() == l.to_set(),
                None => final(self).marks() == old(self).marks(),
            },
    {
        match texts_from_json(text) {
            Some(list) => {
                self.marker_symbols = Vec::new();
                assert(self.marks() =~= Seq::<Seq<char>>::empty());
                assert(self.marked_set() =~= Set::<Seq<char>>::empty());
                self.mark_all(&list);
                assert(self.marked_set() =~= texts(list@).to_set());
                true
            },
            None => false,
        }
    }

    /// The JSON text to persist for the starred symbols.
    pub fn marker_symbols_json(&self) -> (r: String)
        ensures
            r@ == json_of_texts(self.marks()),
    {
        texts_to_json(&self.marker_symbols)
    }

    /// Flips whether `symbol` is starred.
    pub fn toggle_mark(&mut self, symbol: &str)
        requires
            old(self).wf(),
        ensures
            final(self).wf(),
            final(self).sort_key == old(self).sort_key,
            final(self).marked_set() == toggle_set(old(self).marked_set(), symbol@),
    {
        let key = codes_of(symbol);
        let n = self.marker_symbols.len();
        let mut i: usize = 0;
        // first position whose text is not before `symbol`
        while i < n && lex_less(&codes_of(self.marker_symbols[i].as_str()), &key)
            invariant
                n == self.marker_symbols@.len(),
                i <= n,
                ints(key@) == char_codes(symbol@),
                forall|j: int| 0 <= j < i ==> text_lt(#[trigger] self.marks()[j], symbol@),
            decreases n - i,
        {
            i = i + 1;
        }
        let ghost m = self.marks();
        let ghost s = symbol@;
        let ghost old_set = self.marked_set();
        if i < n && !lex_less(&key, &codes_of(self.marker_symbols[i].as_str())) {
            proof {
                lemma_lex_total(char_codes(m[i as int]), char_codes(s));
                lemma_char_codes_injective(m[i as int], s);
            }
            self.marker_symbols.remove(i);
            proof {
                assert(self.marks() =~= m.remove(i as int));
                assert forall|x: Seq<char>| self.marked_set().contains(x) == old_set.remove(s).contains(x) by {
                    if x == s {
                        assert forall|j: int| 0 <= j < self.marks().len() implies self.marks()[j] != s by {
                            if j < i {
                                assert(text_lt(m[j], m[i as int]));
                                lemma_lex_irreflexive(char_codes(s));
                            } else {
                                assert(text_lt(m[i as int], m[j + 1]));
                                lemma_lex_irreflexive(char_codes(s));
                            }
                        }
                    } else if old_set.contains(x) {
                        let j = choose|j: int| 0 <= j < m.len() && m[j] == x;
                        if j < i {
                            assert(self.marks()[j] == x);
                        } else {
                            assert(self.marks()[j - 1] == x);
                        }
                    }
                }
                assert(self.marked_set() =~= old_set.remove(s));
            }
        } else {
            let t = symbol.to_owned();
            self.marker_symbols.insert(i, t);
            proof {
                assert(self.marks() =~= m.insert(i as int, s));
                assert(!old_set.contains(s)) by {
                    if old_set.contains(s) {
                        let j = choose|j: int| 0 <= j < m.len() && m[j] == s;
                        if j < i {
                            lemma_lex_irreflexive(char_codes(s));
                        } else {
                            lemma_lex_irreflexive(char_codes(s));
                            if j > i {
                                assert(text_lt(m[i as int], m[j]));
                                lemma_lex_asymmetric(char_codes(m[i as int]), char_codes(s));
                            }
                        }
                    }
                }
                if i < n {
                    lemma_lex_total(char_codes(m[i as int]), char_codes(s));
                    lemma_lex_asymmetric(char_codes(s), char_codes(m[i as int]));
                }
                assert forall|a: int, b: int| 0 <= a < b < self.marks().len() implies text_lt(
                    #[trigger] self.marks()[a],
                    #[trigger] self.marks()[b],
                ) by {
                    if b < i {
                    } else if b == i {
                    } else if a < i {
                        assert(text_lt(m[a], s));
                        if i < n {
                            assert(text_lt(s, m[i as int]));
                            if b - 1 > i {
                                assert(text_lt(m[i as int], m[b - 1]));
                                lemma_lex_transitive(char_codes(s), char_codes(m[i as int]), char_codes(m[b - 1]));
                            }
                        }
                        lemma_lex_transitive(char_codes(m[a]), char_codes(s), char_codes(m[b - 1]));
                    } else if a == i {
                        if b - 1 > i {
                            assert(text_lt(m[i as int], m[b - 1]));
                            lemma_lex_transitive(char_codes(s), char_codes(m[i as int]), char_codes(m[b - 1]));
                        }
                    } else {
                        assert(text_lt(m[a - 1], m[b - 1]));
                    }
                }
                assert forall|x: Seq<char>| self.marked_set().contains(x) == old_set.insert(s).contains(x) by {
                    if x == s {
                        assert(self.marks()[i as int] == s);
                    } else if old_set.contains(x) {
                        let j = choose|j: int| 0 <= j < m.len() && m[j] == x;
                        if j < i {
                            assert(self.marks()[j] == x);
                        } else {
                            assert(self.marks()[j + 1] == x);
                        }
                    }
                }
                assert(self.marked_set() =~= old_set.insert(s));
            }
        }
    }
}

} // verus!
