//! Npcs, items and hunting zones, with the dat records they are read from.
use vstd::prelude::*;
use crate::ids::{HuntingZoneId, InstantZoneId, ItemId, NpcId, SearchZoneId};
use crate::string_table::L2GeneralStringTable;
use crate::text::{decimal, decimal_text};
use vstd::string::StringExecFns;

verus! {

/// A colour with premultiplied alpha, one byte per channel.
#[derive(Clone, Copy, Debug, PartialEq, Eq, Structural, Default)]
pub struct Color {
    pub r: u8,
    pub g: u8,
    pub b: u8,
    pub a: u8,
}

/// An npc of the game, as the name file describes it.
#[derive(Clone, Debug, PartialEq)]
pub struct Npc {
    pub id: NpcId,
    pub name: String,
    pub title: String,
    pub title_color: Color,
}

/// An item of the game, as the name file describes it.
#[derive(Clone, Debug, PartialEq)]
pub struct Item {
    pub id: ItemId,
    pub name: String,
    pub desc: String,
}

/// A hunting zone of the game.
#[derive(Clone, Debug, PartialEq)]
pub struct HuntingZone {
    pub id: HuntingZoneId,
    pub name: String,
    pub desc: String,
    pub _search_zone_id: SearchZoneId,
    pub _instant_zone_id: InstantZoneId,
}

/// A record of `npcname-ru.dat`.
pub struct NpcNameDat {
    pub id: u32,
    pub name: String,
    pub title: String,
    pub title_color: Color,
}

/// A record of `npcstring-ru.dat`.
pub struct NpcStringDat {
    pub id: u32,
    pub value: String,
}

/// A record of `itemname-ru.dat`.
#[derive(Clone, Debug, Default)]
pub struct ItemNameDat {
    pub id: u32,
    pub name_link: u32,
    pub additional_name: String,
    pub description: String,
    pub popup: i16,
    pub default_action: String,
    pub use_order: u32,
    pub set_id: i16,
    pub color: u8,
    pub tooltip_texture_link: u32,
    pub is_trade: u8,
    pub is_drop: u8,
    pub is_destruct: u8,
    pub is_private_store: u8,
    pub keep_type: u8,
    pub is_npc_trade: u8,
    pub is_commission_store: u8,
}

/// The fields of a `huntingzone-ru.dat` record that the zone list reads.
pub struct HuntingZoneDat {
    pub id: u32,
    pub description: String,
    pub search_zone_id: u32,
    pub name: String,
    pub instance_zone_id: u32,
}

/// The name an item gets when the name table has no text under its link.
pub open spec fn name_not_found(link: u32) -> Seq<char> {
    "NameNotFound["@ + decimal(link as nat) + "]"@
}

/// The text `NameNotFound[<link>]`.
pub fn name_not_found_text(link: u32) -> (r: String)
    ensures
        r@ == name_not_found(link),
{
    let mut s = String::from_str("NameNotFound[");
    let d = decimal_text(link);
    s.append(d.as_str());
    s.append("]");
    s
}

/// The value of an npc.
pub struct NpcView {
    pub id: NpcId,
    pub name: Seq<char>,
    pub title: Seq<char>,
    pub title_color: Color,
}

impl View for Npc {
    type V = NpcView;

    open spec fn view(&self) -> NpcView {
        NpcView { id: self.id, name: self.name@, title: self.title@, title_color: self.title_color }
    }
}

/// The value of an item.
pub struct ItemView {
    pub id: ItemId,
    pub name: Seq<char>,
    pub desc: Seq<char>,
}

impl View for Item {
    type V = ItemView;

    open spec fn view(&self) -> ItemView {
        ItemView { id: self.id, name: self.name@, desc: self.desc@ }
    }
}

/// The value of a hunting zone.
pub struct HuntingZoneView {
    pub id: HuntingZoneId,
    pub name: Seq<char>,
    pub desc: Seq<char>,
    pub search_zone_id: SearchZoneId,
    pub instant_zone_id: InstantZoneId,
}

impl View for HuntingZone {
    type V = HuntingZoneView;

    open spec fn view(&self) -> HuntingZoneView {
        HuntingZoneView {
            id: self.id,
            name: self.name@,
            desc: self.desc@,
            search_zone_id: self._search_zone_id,
            instant_zone_id: self._instant_zone_id,
        }
    }
}

/// The npc that a name record describes.
pub open spec fn npc_from_record(v: NpcNameDat) -> NpcView {
    NpcView { id: NpcId(v.id), name: v.name@, title: v.title@, title_color: v.title_color }
}

/// The name of the item behind `link`: the table's text, or `NameNotFound[<link>]`.
pub open spec fn item_name(names: Seq<Seq<char>>, link: u32) -> Seq<char> {
    if (link as int) < names.len() {
        names[link as int]
    } else {
        name_not_found(link)
    }
}

/// The texts behind a list of links, each as `item_name` gives it.
pub open spec fn names_of(names: Seq<Seq<char>>, links: Seq<u32>) -> Seq<Seq<char>> {
    links.map_values(|l: u32| item_name(names, l))
}

/// The values of a list of texts.
pub open spec fn texts(v: Seq<String>) -> Seq<Seq<char>> {
    v.map_values(|s: String| s@)
}

/// The text behind `link`: the table's text, or `NameNotFound[<link>]`.
pub fn name_text(table: &L2GeneralStringTable, link: u32) -> (r: String)
    ensures
        r@ == item_name(table@, link),
{
    match table.get(&link) {
        Some(n) => n.clone(),
        None => name_not_found_text(link),
    }
}

/// The texts behind a list of links, in order.
pub fn name_texts(table: &L2GeneralStringTable, links: &Vec<u32>) -> (r: Vec<String>)
    ensures
        texts(r@) == names_of(table@, links@),
{
    let mut r: Vec<String> = Vec::new();
    let n = links.len();
    let mut i: usize = 0;
    while i < n
        invariant
            i <= n,
            n == links@.len(),
            r@.len() == i,
            forall|j: int| 0 <= j < i ==> (#[trigger] r@[j])@ == item_name(table@, links@[j]),
        decreases n - i,
    {
        r.push(name_text(table, links[i]));
        i += 1;
    }
    proof {
        assert(texts(r@) =~= names_of(table@, links@));
    }
    r
}

/// The item that a name record describes.
pub open spec fn item_from_record(v: ItemNameDat, names: Seq<Seq<char>>) -> ItemView {
    ItemView { id: ItemId(v.id), name: item_name(names, v.name_link), desc: v.description@ }
}

/// The hunting zone that a zone record describes.
pub open spec fn zone_from_record(v: HuntingZoneDat) -> HuntingZoneView {
    HuntingZoneView {
        id: HuntingZoneId(v.id),
        name: v.name@,
        desc: v.description@,
        search_zone_id: SearchZoneId(v.search_zone_id),
        instant_zone_id: InstantZoneId(v.instance_zone_id),
    }
}

impl Npc {
    /// The npc that a name record describes.
    pub fn from_record(v: NpcNameDat) -> (r: Npc)
        ensures
            r@ == npc_from_record(v),
    {
        Npc { id: NpcId(v.id), name: v.name, title: v.title, title_color: v.title_color }
    }
}

impl Item {
    /// The item that a name record describes: its name is the text under the
    /// record's name link, or `NameNotFound[<link>]` where the table has none.
    pub fn from_record(v: ItemNameDat, game_data_name: &L2GeneralStringTable) -> (r: Item)
        ensures
            r@ == item_from_record(v, game_data_name@),
    {
        let name = name_text(game_data_name, v.name_link);
        Item { id: ItemId(v.id), name, desc: v.description }
    }
}

impl HuntingZone {
    /// The hunting zone that a zone record describes.
    pub fn from_record(v: HuntingZoneDat) -> (r: HuntingZone)
        ensures
            r@ == zone_from_record(v),
    {
        HuntingZone {
            id: HuntingZoneId(v.id),
            name: v.name,
            desc: v.description,
            _search_zone_id: SearchZoneId(v.search_zone_id),
            _instant_zone_id: InstantZoneId(v.instance_zone_id),
        }
    }
}

/// The id and name of an npc, for lists.
pub struct NpcInfo {
    pub id: NpcId,
    pub name: String,
}

impl NpcInfo {
    /// The id and name of `value`.
    pub fn from(value: &Npc) -> (r: NpcInfo)
        ensures
            r.id == value.id,
            r.name@ == value.name@,
    {
        NpcInfo { id: value.id, name: value.name.clone() }
    }
}

/// The hunting zone read from a record has the record's id, its name as name, its
/// description as description, and its search and instant zone ids.
pub proof fn law_zone_from_record_columns(v: HuntingZoneDat, z: HuntingZone)
    requires
        z@ == zone_from_record(v),
    ensures
        z.id.0 == v.id,
        z.name@ == v.name@,
        z.desc@ == v.description@,
        z._search_zone_id.0 == v.search_zone_id,
        z._instant_zone_id.0 == v.instance_zone_id,
{
}

/// The npc read from a record has the record's id, name, title and title colour.
pub proof fn law_npc_from_record_columns(v: NpcNameDat, n: Npc)
    requires
        n@ == npc_from_record(v),
    ensures
        n.id.0 == v.id,
        n.name@ == v.name@,
        n.title@ == v.title@,
        n.title_color == v.title_color,
{
}

/// The item read from a name record has the record's id and description, and the
/// table's text under the record's name link as its name where the table has one.
pub proof fn law_item_from_record_columns(v: ItemNameDat, names: Seq<Seq<char>>, it: Item)
    requires
        it@ == item_from_record(v, names),
    ensures
        it.id.0 == v.id,
        it.desc@ == v.description@,
        (v.name_link as int) < names.len() ==> it.name@ == names[v.name_link as int],
        (v.name_link as int) >= names.len() ==> it.name@ == name_not_found(v.name_link),
{
}

} // verus!
