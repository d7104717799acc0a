//! The exchange's wire format: its envelope, its history pages and assets,
//! and how a trade on the wire becomes a [`Trade`].

use vstd::prelude::*;
use crate::decimal::{is_decimal, is_decimal_text, read_decimal, scale_decimal};
use crate::error::{texts, Error, ErrorView};
use crate::json::{find_member, item_views, json_document, member, member_views, parse, Json,
    JsonView, MemberView};
use crate::text::{parse_u64, same_text, spells_u64, u64_text, u64_to_decimal};
use crate::pagination::{TradeStream, TradeStreamView};
use crate::trade::{Trade, TradeSymbol, TradeSymbolView, TradeView};

verus! {

/// A trade as the exchange sends it: six fields whose place is their
/// meaning. In order: the price, the volume, the time in seconds as the
/// number was written, buy or sell, market or limit, and a remark.
#[derive(Debug, PartialEq, Eq)]
pub struct KrakenTrade(pub String, pub String, pub String, pub String, pub String, pub String);

/// A [`KrakenTrade`] as a mathematical value.
pub struct KrakenTradeView {
    pub price: Seq<char>,
    pub volume: Seq<char>,
    pub time: Seq<char>,
    pub side: Seq<char>,
    pub order: Seq<char>,
    pub misc: Seq<char>,
}

impl View for KrakenTrade {
    type V = KrakenTradeView;

    open spec fn view(&self) -> KrakenTradeView {
        KrakenTradeView {
            price: self.0@,
            volume: self.1@,
            time: self.2@,
            side: self.3@,
            order: self.4@,
            misc: self.5@,
        }
    }
}

/// The views of a sequence of wire trades.
pub open spec fn kraken_trade_views(v: Seq<KrakenTrade>) -> Seq<KrakenTradeView> {
    Seq::new(v.len(), |i: int| v[i]@)
}

/// The wire trade that `json` holds: an array of exactly six items, the
/// third a number and the others strings.
pub open spec fn trade_of_json(json: JsonView) -> Option<KrakenTradeView> {
    match json.items() {
        Some(items) => if items.len() == 6 && items[0].text() is Some && items[1].text() is Some
            && items[2].number() is Some && items[3].text() is Some && items[4].text() is Some
            && items[5].text() is Some {
            Some(
                KrakenTradeView {
                    price: items[0].text()->0,
                    volume: items[1].text()->0,
                    time: items[2].number()->0,
                    side: items[3].text()->0,
                    order: items[4].text()->0,
                    misc: items[5].text()->0,
                },
            )
        } else {
            None
        },
        None => None,
    }
}

/// The wire trades that `json` holds: an array whose items are all wire
/// trades.
pub open spec fn trades_of_json(json: JsonView) -> Option<Seq<KrakenTradeView>> {
    match json.items() {
        Some(items) => if forall|i: int| 0 <= i < items.len() ==> trade_of_json(#[trigger] items[i])
            is Some {
            Some(Seq::new(items.len(), |i: int| trade_of_json(items[i])->0))
        } else {
            None
        },
        None => None,
    }
}

impl KrakenTrade {
    /// Reads a wire trade from its JSON. `None` where the JSON is not one.
    pub fn from_json(json: &Json) -> (r: Option<KrakenTrade>)
        ensures
            match r {
                Some(trade) => trade_of_json(json@) == Some(trade@),
                None => trade_of_json(json@) is None,
            },
    {
        let items = json.items()?;
        if items.len() != 6 {
            return None;
        }
        let price = items[0].text()?;
        let volume = items[1].text()?;
        let time = items[2].number()?;
        let side = items[3].text()?;
        let order = items[4].text()?;
        let misc = items[5].text()?;
        Some(KrakenTrade(price, volume, time, side, order, misc))
    }

    /// Reads a list of wire trades from its JSON. `None` where the JSON is
    /// no array, or an item of it no wire trade.
    pub fn list_from_json(json: &Json) -> (r: Option<Vec<KrakenTrade>>)
        ensures
            match r {
                Some(trades) => trades_of_json(json@) == Some(kraken_trade_views(trades@)),
                None => trades_of_json(json@) is None,
            },
    {
        let items = json.items()?;
        let ghost views = item_views(items@);
        let mut trades: Vec<KrakenTrade> = Vec::new();
        let mut i: usize = 0;
        while i < items.len()
            invariant
                i <= items.len(),
                views == item_views(items@),
                json@.items() == Some(views),
                trades.len() == i,
                forall|j: int| 0 <= j < i ==> trade_of_json(#[trigger] views[j]) == Some(trades[j]@),
            decreases items.len() - i,
        {
            match KrakenTrade::from_json(&items[i]) {
                Some(trade) => {
                    trades.push(trade);
                },
                None => {
                    assert(trade_of_json(views[i as int]) is None);
                    return None;
                },
            }
            i += 1;
        }
        assert(trades_of_json(json@)->0 =~= kraken_trade_views(trades@));
        Some(trades)
    }
}

/// One page of history as the exchange sends it: under each name but
/// `last` the trades of the pair that the exchange calls by that name, and
/// under `last` the cursor from which the next page goes on.
#[derive(Debug, PartialEq, Eq)]
pub struct HistoryResponse {
    pub trades: Vec<(String, Vec<KrakenTrade>)>,
    pub last: String,
}

/// A [`HistoryResponse`] as a mathematical value.
pub struct HistoryResponseView {
    pub trades: Seq<(Seq<char>, Seq<KrakenTradeView>)>,
    pub last: Seq<char>,
}

/// The views of the lists of trades, each with its name.
pub open spec fn entry_views(v: Seq<(String, Vec<KrakenTrade>)>) -> Seq<
    (Seq<char>, Seq<KrakenTradeView>),
> {
    Seq::new(v.len(), |i: int| (v[i].0@, kraken_trade_views(v[i].1@)))
}

/// No name stands twice among the entries.
pub open spec fn distinct_names<T>(entries: Seq<(Seq<char>, T)>) -> bool {
    forall|i: int, j: int|
        0 <= i < j < entries.len() ==> (#[trigger] entries[i]).0 != (#[trigger] entries[j]).0
}

impl HistoryResponseView {
    /// The names of the pairs differ from each other and from `last`.
    pub open spec fn wf(self) -> bool {
        &&& distinct_names(self.trades)
        &&& forall|i: int| 0 <= i < self.trades.len() ==> (#[trigger] self.trades[i]).0 != "last"@
    }
}

impl View for HistoryResponse {
    type V = HistoryResponseView;

    open spec fn view(&self) -> HistoryResponseView {
        HistoryResponseView { trades: entry_views(self.trades@), last: self.last@ }
    }
}

/// The members of a page that are not its cursor, each with the trades it
/// holds, in the order of the members.
pub open spec fn pair_entries(members: Seq<MemberView>) -> Seq<
    (Seq<char>, Seq<KrakenTradeView>),
>
    decreases members.len(),
{
    if members.len() == 0 {
        Seq::empty()
    } else {
        let front = pair_entries(members.drop_last());
        let last = members.last();
        if last.name == "last"@ {
            front
        } else {
            front.push((last.name, trades_of_json(last.value)->0))
        }
    }
}

/// The page that `json` holds: an object with a string under `last` and a
/// list of wire trades under every other name, no name twice.
pub open spec fn history_of_json(json: JsonView) -> Option<HistoryResponseView> {
    match json.members() {
        Some(members) => match member(members, "last"@) {
            Some(last) => if last.text() is Some && distinct_names(pair_entries(members))
                && forall|i: int|
                0 <= i < members.len() && (#[trigger] members[i]).name != "last"@
                    ==> trades_of_json(members[i].value) is Some {
                Some(HistoryResponseView { trades: pair_entries(members), last: last.text()->0 })
            } else {
                None
            },
            None => None,
        },
        None => None,
    }
}

/// The members of a page that hold the trades of a pair: all but the one
/// named `last`, in their order.
pub open spec fn pair_members(members: Seq<MemberView>) -> Seq<MemberView> {
    members.filter(|m: MemberView| m.name != "last"@)
}

/// A page has one entry for each member that is not named `last`, and in
/// that entry the member's name and the trades it holds.
pub proof fn lemma_pair_entries_are_pair_members(members: Seq<MemberView>)
    ensures
        pair_entries(members).len() == pair_members(members).len(),
        forall|i: int|
            0 <= i < pair_entries(members).len() ==> #[trigger] pair_entries(members)[i] == (
                pair_members(members)[i].name,
                trades_of_json(pair_members(members)[i].value)->0,
            ),
    decreases members.len(),
{
    reveal(Seq::filter);
    if members.len() > 0 {
        lemma_pair_entries_are_pair_members(members.drop_last());
        let front = pair_entries(members.drop_last());
        assert forall|i: int| 0 <= i < pair_entries(members).len() implies #[trigger] pair_entries(
            members,
        )[i] == (
            pair_members(members)[i].name,
            trades_of_json(pair_members(members)[i].value)->0,
        ) by {
            if i < front.len() {
                assert(pair_entries(members)[i] == front[i]);
                assert(pair_members(members)[i] == pair_members(members.drop_last())[i]);
            }
        }
    }
}

/// The entries of the first members are the first entries of them all.
proof fn lemma_pair_entries_prefix(members: Seq<MemberView>, k: int)
    requires
        0 <= k <= members.len(),
    ensures
        pair_entries(members.take(k)).len() <= pair_entries(members).len(),
        pair_entries(members.take(k)) == pair_entries(members).take(
            pair_entries(members.take(k)).len() as int,
        ),
    decreases members.len(),
{
    if k == members.len() {
        assert(members.take(k) =~= members);
        assert(pair_entries(members).take(pair_entries(members).len() as int) =~= pair_entries(
            members,
        ));
    } else {
        assert(members.drop_last().take(k) =~= members.take(k));
        lemma_pair_entries_prefix(members.drop_last(), k);
        let front = pair_entries(members.drop_last());
        let n = pair_entries(members.take(k)).len() as int;
        assert(pair_entries(members).take(n) =~= front.take(n));
    }
}

/// No entry of a page goes by the name of the cursor.
proof fn lemma_pair_entries_names(members: Seq<MemberView>)
    ensures
        forall|i: int|
            0 <= i < pair_entries(members).len() ==> (#[trigger] pair_entries(members)[i]).0
                != "last"@,
    decreases members.len(),
{
    if members.len() > 0 {
        lemma_pair_entries_names(members.drop_last());
        let front = pair_entries(members.drop_last());
        assert forall|i: int| 0 <= i < pair_entries(members).len() implies (#[trigger] pair_entries(
            members,
        )[i]).0 != "last"@ by {
            if i < front.len() {
                assert(pair_entries(members)[i] == front[i]);
            }
        }
    }
}

fn has_name<T>(entries: &Vec<(String, T)>, name: &str) -> (r: bool)
    ensures
        r == exists|i: int| 0 <= i < entries.len() && (#[trigger] entries[i]).0@ == name@,
{
    let mut i: usize = 0;
    while i < entries.len()
        invariant
            i <= entries.len(),
            forall|j: int| 0 <= j < i ==> (#[trigger] entries[j]).0@ != name@,
        decreases entries.len() - i,
    {
        if same_text(entries[i].0.as_str(), name) {
            return true;
        }
        i += 1;
    }
    false
}

impl HistoryResponse {
    /// Reads a page from its JSON. `None` where the JSON is not one.
    pub fn from_json(json: &Json) -> (r: Option<HistoryResponse>)
        ensures
            match r {
                Some(page) => history_of_json(json@) == Some(page@) && page@.wf(),
                None => history_of_json(json@) is None,
            },
    {
        let members = json.members()?;
        let ghost views = member_views(members@);
        let last = match find_member(members, "last") {
            Some(last) => last.text()?,
            None => {
                return None;
            },
        };
        let mut trades: Vec<(String, Vec<KrakenTrade>)> = Vec::new();
        let mut i: usize = 0;
        assert(views.take(0) =~= Seq::<MemberView>::empty());
        while i < members.len()
            invariant
                i <= members.len(),
                views == member_views(members@),
                json@.members() == Some(views),
                member(views, "last"@) is Some,
                member(views, "last"@)->0.text() == Some(last@),
                entry_views(trades@) == pair_entries(views.take(i as int)),
                distinct_names(entry_views(trades@)),
                forall|j: int|
                    0 <= j < i && (#[trigger] views[j]).name != "last"@ ==> trades_of_json(
                        views[j].value,
                    ) is Some,
            decreases members.len() - i,
        {
            let ghost name = views[i as int].name;
            let ghost held = trades_of_json(views[i as int].value);
            assert(views.take(i + 1).drop_last() =~= views.take(i as int));
            assert(views.take(i + 1).last() == views[i as int]);
            if !same_text(members[i].0.as_str(), "last") {
                if has_name(&trades, members[i].0.as_str()) {
                    proof {
                        let twice = choose|j: int|
                            0 <= j < trades.len() && (#[trigger] trades[j]).0@ == name;
                        let longer = pair_entries(views.take(i + 1));
                        assert(longer =~= entry_views(trades@).push((name, held->0)));
                        assert(longer[twice].0 == entry_views(trades@)[twice].0);
                        assert(longer[twice].0 == longer[trades.len() as int].0);
                        lemma_pair_entries_prefix(views, i + 1);
                        let all = pair_entries(views);
                        assert(all[twice] == longer[twice]);
                        assert(all[trades.len() as int] == longer[trades.len() as int]);
                        assert(!distinct_names(all));
                    }
                    return None;
                }
                match KrakenTrade::list_from_json(&members[i].1) {
                    Some(list) => {
                        let ghost before = trades@;
                        trades.push((members[i].0.clone(), list));
                        assert(entry_views(trades@) =~= entry_views(before).push((name, held->0)));
                        assert(distinct_names(entry_views(trades@))) by {
                            assert forall|a: int, b: int|
                                0 <= a < b < entry_views(trades@).len() implies (
                            #[trigger] entry_views(trades@)[a]).0 != (#[trigger] entry_views(
                                trades@,
                            )[b]).0 by {
                                if b < before.len() {
                                    assert(entry_views(trades@)[a] == entry_views(before)[a]);
                                    assert(entry_views(trades@)[b] == entry_views(before)[b]);
                                } else {
                                    assert(before[a].0@ != name);
                                }
                            }
                        }
                    },
                    None => {
                        assert(held is None);
                        return None;
                    },
                }
            }
            i += 1;
        }
        assert(views.take(members.len() as int) =~= views);
        proof {
            lemma_pair_entries_names(views);
        }
        Some(HistoryResponse { trades, last })
    }

    /// The trades that stand under `name`, if any do.
    pub fn trades_for(&self, name: &str) -> (r: Option<&Vec<KrakenTrade>>)
        ensures
            match r {
                Some(list) => exists|i: int|
                    0 <= i < self.trades.len() && (#[trigger] self.trades[i]).0@ == name@
                        && self.trades[i].1 == *list && forall|j: int|
                        0 <= j < i ==> (#[trigger] self.trades[j]).0@ != name@,
                None => forall|i: int|
                    0 <= i < self.trades.len() ==> (#[trigger] self.trades[i]).0@ != name@,
            },
    {
        let mut i: usize = 0;
        while i < self.trades.len()
            invariant
                i <= self.trades.len(),
                forall|j: int| 0 <= j < i ==> (#[trigger] self.trades[j]).0@ != name@,
            decreases self.trades.len() - i,
        {
            if same_text(self.trades[i].0.as_str(), name) {
                return Some(&self.trades[i].1);
            }
            i += 1;
        }
        None
    }
}

/// One entry of the exchange's list of assets.
#[derive(Debug, PartialEq, Eq)]
pub struct Asset {
    pub altname: String,
    pub aclass: String,
    pub decimals: u8,
    pub display_decimals: u8,
}

/// An [`Asset`] as a mathematical value.
pub struct AssetView {
    pub altname: Seq<char>,
    pub aclass: Seq<char>,
    pub decimals: u8,
    pub display_decimals: u8,
}

impl View for Asset {
    type V = AssetView;

    open spec fn view(&self) -> AssetView {
        AssetView {
            altname: self.altname@,
            aclass: self.aclass@,
            decimals: self.decimals,
            display_decimals: self.display_decimals,
        }
    }
}

/// The views of a list of assets, each with its code.
pub open spec fn asset_views(v: Seq<(String, Asset)>) -> Seq<(Seq<char>, AssetView)> {
    Seq::new(v.len(), |i: int| (v[i].0@, v[i].1@))
}

/// The string under `name` in `members`.
pub open spec fn text_member(members: Seq<MemberView>, name: Seq<char>) -> Option<
    Seq<char>,
> {
    match member(members, name) {
        Some(value) => value.text(),
        None => None,
    }
}

/// The number under `name` in `members`, if it is an unsigned integer of no
/// more than eight bits.
pub open spec fn u8_member(members: Seq<MemberView>, name: Seq<char>) -> Option<u8> {
    match member(members, name) {
        Some(value) => match value.number() {
            Some(literal) => match u64_text(literal) {
                Some(n) => if n <= u8::MAX {
                    Some(n as u8)
                } else {
                    None
                },
                None => None,
            },
            None => None,
        },
        None => None,
    }
}

/// The asset that `json` holds: an object with strings under `altname` and
/// `aclass` and small numbers under `decimals` and `display_decimals`.
pub open spec fn asset_of_json(json: JsonView) -> Option<AssetView> {
    match json.members() {
        Some(members) => if text_member(members, "altname"@) is Some && text_member(
            members,
            "aclass"@,
        ) is Some && u8_member(members, "decimals"@) is Some && u8_member(
            members,
            "display_decimals"@,
        ) is Some {
            Some(
                AssetView {
                    altname: text_member(members, "altname"@)->0,
                    aclass: text_member(members, "aclass"@)->0,
                    decimals: u8_member(members, "decimals"@)->0,
                    display_decimals: u8_member(members, "display_decimals"@)->0,
                },
            )
        } else {
            None
        },
        None => None,
    }
}

/// The members of a list of assets, each with the asset it holds.
pub open spec fn asset_entries(members: Seq<MemberView>) -> Seq<
    (Seq<char>, AssetView),
> {
    Seq::new(members.len(), |i: int| (members[i].name, asset_of_json(members[i].value)->0))
}

/// The assets that `json` holds: an object whose members are all assets,
/// no code twice.
pub open spec fn assets_of_json(json: JsonView) -> Option<Seq<(Seq<char>, AssetView)>> {
    match json.members() {
        Some(members) => if distinct_names(asset_entries(members)) && forall|i: int|
            0 <= i < members.len() ==> asset_of_json((#[trigger] members[i]).value) is Some {
            Some(asset_entries(members))
        } else {
            None
        },
        None => None,
    }
}

fn text_member_of(members: &Vec<(String, Json)>, name: &str) -> (r: Option<String>)
    ensures
        match r {
            Some(text) => text_member(member_views(members@), name@) == Some(text@),
            None => text_member(member_views(members@), name@) is None,
        },
{
    match find_member(members, name) {
        Some(value) => value.text(),
        None => None,
    }
}

fn u8_member_of(members: &Vec<(String, Json)>, name: &str) -> (r: Option<u8>)
    ensures
        r == u8_member(member_views(members@), name@),
{
    let literal = match find_member(members, name) {
        Some(value) => value.number()?,
        None => {
            return None;
        },
    };
    match parse_u64(literal.as_str()) {
        Some(n) => if n <= 255 {
            Some(n as u8)
        } else {
            None
        },
        None => None,
    }
}

impl Asset {
    /// Reads an asset from its JSON. `None` where the JSON is not one.
    pub fn from_json(json: &Json) -> (r: Option<Asset>)
        ensures
            match r {
                Some(asset) => asset_of_json(json@) == Some(asset@),
                None => asset_of_json(json@) is None,
            },
    {
        let members = json.members()?;
        let altname = text_member_of(members, "altname")?;
        let aclass = text_member_of(members, "aclass")?;
        let decimals = u8_member_of(members, "decimals")?;
        let display_decimals = u8_member_of(members, "display_decimals")?;
        Some(Asset { altname, aclass, decimals, display_decimals })
    }

    /// Reads the exchange's list of assets from its JSON. `None` where the
    /// JSON is no object, or a member of it no asset, or a code stands
    /// twice.
    pub fn list_from_json(json: &Json) -> (r: Option<Vec<(String, Asset)>>)
        ensures
            match r {
                Some(assets) => assets_of_json(json@) == Some(asset_views(assets@))
                    && distinct_names(asset_views(assets@)),
                None => assets_of_json(json@) is None,
            },
    {
        let members = json.members()?;
        let ghost views = member_views(members@);
        let mut assets: Vec<(String, Asset)> = Vec::new();
        let mut i: usize = 0;
        while i < members.len()
            invariant
                i <= members.len(),
                views == member_views(members@),
                json@.members() == Some(views),
                assets.len() == i,
                forall|j: int|
                    0 <= j < i ==> asset_of_json((#[trigger] views[j]).value) == Some(assets[j].1@)
                        && assets[j].0@ == views[j].name,
                forall|a: int, b: int|
                    0 <= a < b < i ==> (#[trigger] assets[a]).0@ != (#[trigger] assets[b]).0@,
            decreases members.len() - i,
        {
            assert(views[i as int].name == members[i as int].0@);
            if has_name(&assets, members[i].0.as_str()) {
                proof {
                    let twice = choose|j: int|
                        0 <= j < assets.len() && (#[trigger] assets[j]).0@ == views[i as int].name;
                    assert(views[twice].name == views[i as int].name);
                    assert(asset_entries(views)[twice].0 == asset_entries(views)[i as int].0);
                }
                return None;
            }
            match Asset::from_json(&members[i].1) {
                Some(asset) => {
                    assets.push((members[i].0.clone(), asset));
                },
                None => {
                    assert(asset_of_json(views[i as int].value) is None);
                    return None;
                },
            }
            i += 1;
        }
        assert(asset_entries(views) =~= asset_views(assets@));
        assert(distinct_names(asset_views(assets@))) by {
            assert forall|a: int, b: int| 0 <= a < b < assets.len() implies (#[trigger] asset_views(
                assets@,
            )[a]).0 != (#[trigger] asset_views(assets@)[b]).0 by {
                assert(assets[a].0@ != assets[b].0@);
            }
        }
        Some(assets)
    }
}

/// The envelope in which the exchange sends every answer: a list of error
/// messages, and the result where the list is empty.
#[derive(Debug, PartialEq, Eq)]
pub struct KrakenResponse<T> {
    pub error: Vec<String>,
    pub result: Option<T>,
}

/// A [`KrakenResponse`] as a mathematical value, over the view of its
/// result.
pub struct KrakenResponseView<V> {
    pub error: Seq<Seq<char>>,
    pub result: Option<V>,
}

impl<V> KrakenResponseView<V> {
    /// No result stands beside an error.
    pub open spec fn wf(self) -> bool {
        self.error.len() > 0 ==> self.result is None
    }
}

impl View for KrakenResponse<HistoryResponse> {
    type V = KrakenResponseView<HistoryResponseView>;

    open spec fn view(&self) -> KrakenResponseView<HistoryResponseView> {
        KrakenResponseView {
            error: texts(self.error@),
            result: match self.result {
                Some(page) => Some(page@),
                None => None,
            },
        }
    }
}

impl View for KrakenResponse<Vec<(String, Asset)>> {
    type V = KrakenResponseView<Seq<(Seq<char>, AssetView)>>;

    open spec fn view(&self) -> KrakenResponseView<Seq<(Seq<char>, AssetView)>> {
        KrakenResponseView {
            error: texts(self.error@),
            result: match self.result {
                Some(assets) => Some(asset_views(assets@)),
                None => None,
            },
        }
    }
}

/// The message of the error for a body that is JSON and no envelope.
pub const NO_ENVELOPE: &'static str = "response is no envelope with a list of messages under `error`";

/// The message of the error for a result that is no page of history.
pub const NO_HISTORY: &'static str = "result is no page of history";

/// The message of the error for a result that is no list of assets.
pub const NO_ASSETS: &'static str = "result is no list of assets";

/// The message of the error for an envelope with neither error nor result.
pub const NO_RESULT: &'static str = "response holds neither an error nor a result";

/// The strings that `json` holds: an array whose items are all strings.
pub open spec fn strings_of_json(json: JsonView) -> Option<Seq<Seq<char>>> {
    match json.items() {
        Some(items) => if forall|i: int| 0 <= i < items.len() ==> (#[trigger] items[i]).text() is Some {
            Some(Seq::new(items.len(), |i: int| items[i].text()->0))
        } else {
            None
        },
        None => None,
    }
}

/// The error messages of the envelope that `json` holds: the list of
/// strings under `error` of an object.
pub open spec fn envelope_errors(json: JsonView) -> Option<Seq<Seq<char>>> {
    match json.members() {
        Some(members) => match member(members, "error"@) {
            Some(list) => strings_of_json(list),
            None => None,
        },
        None => None,
    }
}

/// What stands under `result` in the envelope that `json` holds. A missing
/// member and `null` are both no result.
pub open spec fn envelope_result(json: JsonView) -> Option<JsonView> {
    match json.members() {
        Some(members) => match member(members, "result"@) {
            Some(value) => if value is Null {
                None
            } else {
                Some(value)
            },
            None => None,
        },
        None => None,
    }
}

fn strings_from_json(json: &Json) -> (r: Option<Vec<String>>)
    ensures
        match r {
            Some(strings) => strings_of_json(json@) == Some(texts(strings@)),
            None => strings_of_json(json@) is None,
        },
{
    let items = json.items()?;
    let ghost views = item_views(items@);
    let mut strings: Vec<String> = Vec::new();
    let mut i: usize = 0;
    while i < items.len()
        invariant
            i <= items.len(),
            views == item_views(items@),
            json@.items() == Some(views),
            strings.len() == i,
            forall|j: int| 0 <= j < i ==> (#[trigger] views[j]).text() == Some(strings[j]@),
        decreases items.len() - i,
    {
        match items[i].text() {
            Some(text) => {
                strings.push(text);
            },
            None => {
                assert(views[i as int].text() is None);
                return None;
            },
        }
        i += 1;
    }
    assert(strings_of_json(json@)->0 =~= texts(strings@));
    Some(strings)
}

fn errors_from_json(json: &Json) -> (r: Option<Vec<String>>)
    ensures
        match r {
            Some(messages) => envelope_errors(json@) == Some(texts(messages@)),
            None => envelope_errors(json@) is None,
        },
{
    match json.members() {
        Some(members) => match find_member(members, "error") {
            Some(list) => strings_from_json(list),
            None => None,
        },
        None => None,
    }
}

fn result_from_json<'a>(json: &'a Json) -> (r: Option<&'a Json>)
    ensures
        match r {
            Some(value) => envelope_result(json@) == Some(value@),
            None => envelope_result(json@) is None,
        },
{
    match json.members() {
        Some(members) => match find_member(members, "result") {
            Some(value) => if value.is_null() {
                None
            } else {
                Some(value)
            },
            None => None,
        },
        None => None,
    }
}

/// The answer to a request for history that `json` holds. Where the list of
/// errors is not empty the result is not looked at.
pub open spec fn history_response_of_json(json: JsonView) -> Result<
    KrakenResponseView<HistoryResponseView>,
    ErrorView,
> {
    match envelope_errors(json) {
        None => Err(ErrorView::Json(NO_ENVELOPE@)),
        Some(error) => if error.len() > 0 {
            Ok(KrakenResponseView { error, result: None })
        } else {
            match envelope_result(json) {
                None => Ok(KrakenResponseView { error, result: None }),
                Some(value) => match history_of_json(value) {
                    Some(page) => Ok(KrakenResponseView { error, result: Some(page) }),
                    None => Err(ErrorView::Json(NO_HISTORY@)),
                },
            }
        },
    }
}

/// The answer to a request for the assets that `json` holds. Where the list
/// of errors is not empty the result is not looked at.
pub open spec fn asset_response_of_json(json: JsonView) -> Result<
    KrakenResponseView<Seq<(Seq<char>, AssetView)>>,
    ErrorView,
> {
    match envelope_errors(json) {
        None => Err(ErrorView::Json(NO_ENVELOPE@)),
        Some(error) => if error.len() > 0 {
            Ok(KrakenResponseView { error, result: None })
        } else {
            match envelope_result(json) {
                None => Ok(KrakenResponseView { error, result: None }),
                Some(value) => match assets_of_json(value) {
                    Some(assets) => Ok(KrakenResponseView { error, result: Some(assets) }),
                    None => Err(ErrorView::Json(NO_ASSETS@)),
                },
            }
        },
    }
}

impl KrakenResponse<HistoryResponse> {
    /// Reads the answer to a request for history from its JSON.
    pub fn from_json(json: &Json) -> (r: Result<Self, Error>)
        ensures
            match r {
                Ok(response) => history_response_of_json(json@) == Ok::<
                    KrakenResponseView<HistoryResponseView>,
                    ErrorView,
                >(response@) && response@.wf() && (response@.result matches Some(page)
                    ==> page.wf()),
                Err(error) => history_response_of_json(json@) == Err::<
                    KrakenResponseView<HistoryResponseView>,
                    ErrorView,
                >(error@),
            },
    {
        let error = match errors_from_json(json) {
            Some(error) => error,
            None => {
                return Err(Error::JSONError(String::from_str(NO_ENVELOPE)));
            },
        };
        if error.len() > 0 {
            return Ok(KrakenResponse { error, result: None });
        }
        match result_from_json(json) {
            None => Ok(KrakenResponse { error, result: None }),
            Some(value) => match HistoryResponse::from_json(value) {
                Some(page) => Ok(KrakenResponse { error, result: Some(page) }),
                None => Err(Error::JSONError(String::from_str(NO_HISTORY))),
            },
        }
    }
}

impl KrakenResponse<Vec<(String, Asset)>> {
    /// Reads the answer to a request for the assets from its JSON.
    pub fn from_json(json: &Json) -> (r: Result<Self, Error>)
        ensures
            match r {
                Ok(response) => asset_response_of_json(json@) == Ok::<
                    KrakenResponseView<Seq<(Seq<char>, AssetView)>>,
                    ErrorView,
                >(response@) && response@.wf() && (response@.result matches Some(assets)
                    ==> distinct_names(assets)),
                Err(error) => asset_response_of_json(json@) == Err::<
                    KrakenResponseView<Seq<(Seq<char>, AssetView)>>,
                    ErrorView,
                >(error@),
            },
    {
        let error = match errors_from_json(json) {
            Some(error) => error,
            None => {
                return Err(Error::JSONError(String::from_str(NO_ENVELOPE)));
            },
        };
        if error.len() > 0 {
            return Ok(KrakenResponse { error, result: None });
        }
        match result_from_json(json) {
            None => Ok(KrakenResponse { error, result: None }),
            Some(value) => match Asset::list_from_json(value) {
                Some(assets) => Ok(KrakenResponse { error, result: Some(assets) }),
                None => Err(Error::JSONError(String::from_str(NO_ASSETS))),
            },
        }
    }
}

impl<T> KrakenResponse<T> {
    /// What the envelope amounts to: the exchange's error where it names
    /// one, else the result, else the error that there is none.
    pub open spec fn outcome(self) -> Result<T, ErrorView> {
        if self.error@.len() > 0 {
            Err(ErrorView::Kraken(texts(self.error@)))
        } else {
            match self.result {
                Some(result) => Ok(result),
                None => Err(ErrorView::Json(NO_RESULT@)),
            }
        }
    }

    /// Opens the envelope: the result, or the reason why there is none.
    pub fn into_result(self) -> (r: Result<T, Error>)
        ensures
            match r {
                Ok(result) => self.outcome() == Ok::<T, ErrorView>(result),
                Err(error) => self.outcome() == Err::<T, ErrorView>(error@),
            },
    {
        if self.error.len() > 0 {
            Err(Error::KrakenError(self.error))
        } else {
            match self.result {
                Some(result) => Ok(result),
                None => Err(Error::JSONError(String::from_str(NO_RESULT))),
            }
        }
    }
}

/// Whatever JSON an answer is read from, the envelope that comes out holds
/// no result beside an error.
pub proof fn lemma_read_envelope_is_wf(json: JsonView)
    ensures
        history_response_of_json(json) matches Ok(response) ==> response.wf(),
        asset_response_of_json(json) matches Ok(response) ==> response.wf(),
{
}

/// An envelope is an error of the exchange exactly when its list of errors
/// is not empty, and then it is never a result.
pub proof fn lemma_error_list_decides<T>(response: KrakenResponse<T>)
    ensures
        response.error@.len() > 0 <==> response.outcome() matches Err(ErrorView::Kraken(_)),
        response.outcome() is Ok ==> response.error@.len() == 0 && response.result is Some,
{
}

/// How many decimal places of a trade's time in seconds are kept. A time is
/// counted in units of ten to the minus this many seconds.
pub const TIME_PLACES: u8 = 4;

/// The message of the error for a price that is no decimal number.
pub const NO_PRICE: &'static str = "price is no decimal number";

/// The message of the error for a volume that is no decimal number.
pub const NO_VOLUME: &'static str = "volume is no decimal number";

/// The message of the error for a time that is no decimal number.
pub const NO_TIME: &'static str = "time is no decimal number";

/// The trade that a wire trade stands for on the market `symbol`. Price and
/// volume have to be decimal numbers and are kept as they are written. The
/// time is the seconds on the wire times ten thousand, rounded toward zero
/// and kept within `u64`. The other three fields are dropped.
pub open spec fn adapted(raw: KrakenTradeView, symbol: TradeSymbolView) -> Result<
    TradeView,
    ErrorView,
> {
    if !is_decimal(raw.price) {
        Err(ErrorView::Parse(NO_PRICE@))
    } else if !is_decimal(raw.volume) {
        Err(ErrorView::Parse(NO_VOLUME@))
    } else {
        match read_decimal(raw.time) {
            None => Err(ErrorView::Parse(NO_TIME@)),
            Some(seconds) => Ok(
                TradeView {
                    symbol,
                    price: raw.price,
                    volume: raw.volume,
                    timestamp: seconds.scaled_u64(TIME_PLACES as nat),
                },
            ),
        }
    }
}

/// A trade that a wire trade stands for has decimal numbers for its price
/// and its volume.
pub proof fn lemma_adapted_is_wf(raw: KrakenTradeView, symbol: TradeSymbolView)
    requires
        adapted(raw, symbol) is Ok,
    ensures
        adapted(raw, symbol)->Ok_0.wf(),
        adapted(raw, symbol)->Ok_0.symbol == symbol,
{
}

impl Trade {
    /// Makes the trade that a wire trade stands for.
    pub fn from_kraken(raw: &KrakenTrade, symbol: &TradeSymbol) -> (r: Result<Trade, Error>)
        ensures
            match r {
                Ok(trade) => adapted(raw@, symbol@) == Ok::<TradeView, ErrorView>(trade@)
                    && trade@.wf(),
                Err(error) => adapted(raw@, symbol@) == Err::<TradeView, ErrorView>(error@),
            },
    {
        if !is_decimal_text(raw.0.as_str()) {
            return Err(Error::ParseError(String::from_str(NO_PRICE)));
        }
        if !is_decimal_text(raw.1.as_str()) {
            return Err(Error::ParseError(String::from_str(NO_VOLUME)));
        }
        match scale_decimal(raw.2.as_str(), TIME_PLACES) {
            None => Err(Error::ParseError(String::from_str(NO_TIME))),
            Some(timestamp) => Ok(
                Trade {
                    symbol: symbol.clone(),
                    price: raw.0.clone(),
                    volume: raw.1.clone(),
                    timestamp,
                },
            ),
        }
    }
}

/// What is asked of the `Trades` endpoint: the pair, and the cursor from
/// which its history is wanted.
#[derive(Debug, PartialEq, Eq)]
pub struct HistoryRequest {
    pub pair: String,
    pub since: u64,
}

/// A [`HistoryRequest`] as a mathematical value.
pub struct HistoryRequestView {
    pub pair: Seq<char>,
    pub since: u64,
}

impl View for HistoryRequest {
    type V = HistoryRequestView;

    open spec fn view(&self) -> HistoryRequestView {
        HistoryRequestView { pair: self.pair@, since: self.since }
    }
}

/// The endpoint that serves the history of trades.
pub const TRADES_ENDPOINT: &'static str = "Trades";

/// The endpoint that serves the list of assets.
pub const ASSETS_ENDPOINT: &'static str = "Assets";

impl HistoryRequest {
    /// The request for the history of `symbol` from the cursor `since` on.
    pub fn new(symbol: &TradeSymbol, since: u64) -> (r: Self)
        ensures
            r@ == (HistoryRequestView { pair: symbol@.pair(), since }),
    {
        HistoryRequest { pair: symbol.pair(), since }
    }

    /// The query of the request: `pair`, then `since` in decimal.
    pub fn query(&self) -> (r: Vec<(String, String)>)
        ensures
            r.len() == 2,
            r[0].0@ == "pair"@,
            r[0].1@ == self.pair@,
            r[1].0@ == "since"@,
            spells_u64(r[1].1@, self.since),
    {
        let mut r: Vec<(String, String)> = Vec::new();
        r.push((String::from_str("pair"), self.pair.clone()));
        r.push((String::from_str("since"), u64_to_decimal(self.since)));
        r
    }
}

/// The answer to a request for history, from what the JSON reader made of
/// its body.
pub open spec fn history_of_document(document: Result<JsonView, Seq<char>>) -> Result<
    KrakenResponseView<HistoryResponseView>,
    ErrorView,
> {
    match document {
        Ok(json) => history_response_of_json(json),
        Err(message) => Err(ErrorView::Json(message)),
    }
}

/// The answer to a request for the assets, from what the JSON reader made
/// of its body.
pub open spec fn assets_of_document(document: Result<JsonView, Seq<char>>) -> Result<
    KrakenResponseView<Seq<(Seq<char>, AssetView)>>,
    ErrorView,
> {
    match document {
        Ok(json) => asset_response_of_json(json),
        Err(message) => Err(ErrorView::Json(message)),
    }
}

/// The exchange, behind whatever client reaches it. The client makes the
/// requests; what is asked and what the answers mean is decided here.
pub struct Kraken<Client> {
    pub client: Client,
}

impl<Client> Kraken<Client> {
    /// Reads the body of the answer to a request for the assets.
    pub fn assets(&self, body: &str) -> (r: Result<KrakenResponse<Vec<(String, Asset)>>, Error>)
        ensures
            match r {
                Ok(response) => assets_of_document(json_document(body@)) == Ok::<
                    KrakenResponseView<Seq<(Seq<char>, AssetView)>>,
                    ErrorView,
                >(response@) && response@.wf() && (response@.result matches Some(assets)
                    ==> distinct_names(assets)),
                Err(error) => assets_of_document(json_document(body@)) == Err::<
                    KrakenResponseView<Seq<(Seq<char>, AssetView)>>,
                    ErrorView,
                >(error@),
            },
    {
        match parse(body) {
            Ok(json) => KrakenResponse::<Vec<(String, Asset)>>::from_json(&json),
            Err(error) => Err(error),
        }
    }

    /// Reads the body of the answer to a request for history.
    pub fn history(&self, body: &str) -> (r: Result<KrakenResponse<HistoryResponse>, Error>)
        ensures
            match r {
                Ok(response) => history_of_document(json_document(body@)) == Ok::<
                    KrakenResponseView<HistoryResponseView>,
                    ErrorView,
                >(response@) && response@.wf() && (response@.result matches Some(page)
                    ==> page.wf()),
                Err(error) => history_of_document(json_document(body@)) == Err::<
                    KrakenResponseView<HistoryResponseView>,
                    ErrorView,
                >(error@),
            },
    {
        match parse(body) {
            Ok(json) => KrakenResponse::<HistoryResponse>::from_json(&json),
            Err(error) => Err(error),
        }
    }

    /// The request for the history of `symbol` from the cursor `since` on.
    pub fn history_request(&self, symbol: &TradeSymbol, since: u64) -> (r: HistoryRequest)
        ensures
            r@ == (HistoryRequestView { pair: symbol@.pair(), since }),
    {
        HistoryRequest::new(symbol, since)
    }

    /// The trades of `symbol` from the cursor `since` on, as a stream that
    /// is still to be driven.
    pub fn history_since_until_now(&self, symbol: TradeSymbol, since: u64) -> (r: TradeStream)
        ensures
            r@ == TradeStreamView::start(symbol@, since),
    {
        TradeStream::new(symbol, since)
    }
}

} // verus!
