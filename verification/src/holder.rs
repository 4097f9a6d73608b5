//! The game data the editor works on, as read from one client folder.
use vstd::prelude::*;
use crate::changed_map::FHashMap;
use crate::entity::{HuntingZone, Item, Npc};
use crate::ids::{ItemId, NpcId};
use crate::loader::ChroniclesProtocol;
use crate::quest::Quest;
use crate::recipe::Recipe;
use crate::weapon::Weapon;
use crate::skill::Skill;
use crate::string_table::L2GeneralStringTable;
use crate::text::{decimal, decimal_text, lowercase, to_lowercase};
use vstd::string::StrSliceExecFns;

verus! {

/// The entities of one client folder, by id, with its name table.
pub struct GameDataHolder {
    pub protocol_version: ChroniclesProtocol,
    pub npc_holder: FHashMap<Npc>,
    pub npc_strings: FHashMap<String>,
    pub item_holder: FHashMap<Item>,
    pub quest_holder: FHashMap<Quest>,
    pub skill_holder: FHashMap<Skill>,
    pub hunting_zone_holder: FHashMap<HuntingZone>,
    pub recipe_holder: FHashMap<Recipe>,
    pub weapon_holder: FHashMap<Weapon>,
    pub game_string_table: L2GeneralStringTable,
}

/// The text shown for an id that names nothing: the id as `{:?}` prints it, then
/// " Not Exist!".
pub open spec fn not_exist(kind_name: Seq<char>, id: u32) -> Seq<char> {
    kind_name + "("@ + decimal(id as nat) + ") Not Exist!"@
}

fn not_exist_text(kind_name: &str, id: u32) -> (r: String)
    ensures
        r@ == not_exist(kind_name@, id),
{
    let mut s = String::from_str(kind_name);
    s.append("(");
    let d = decimal_text(id);
    s.append(d.as_str());
    s.append(") Not Exist!");
    s
}

impl GameDataHolder {
    /// The name of npc `id`, or "NpcId(<id>) Not Exist!" where there is none.
    pub fn get_npc_name(&self, id: &NpcId) -> (r: String)
        ensures
            self.npc_holder@.contains_key(id.0) ==> r@ == self.npc_holder@[id.0].name@,
            !self.npc_holder@.contains_key(id.0) ==> r@ == not_exist("NpcId"@, id.0),
    {
        match self.npc_holder.get(&id.0) {
            Some(npc) => npc.name.clone(),
            None => not_exist_text("NpcId", id.0),
        }
    }

    /// The name of item `id`, or "ItemId(<id>) Not Exist!" where there is none.
    pub fn get_item_name(&self, id: &ItemId) -> (r: String)
        ensures
            self.item_holder@.contains_key(id.0) ==> r@ == self.item_holder@[id.0].name@,
            !self.item_holder@.contains_key(id.0) ==> r@ == not_exist("ItemId"@, id.0),
    {
        match self.item_holder.get(&id.0) {
            Some(item) => item.name.clone(),
            None => not_exist_text("ItemId", id.0),
        }
    }
}

/// Whether a file name ends in ".dat".
pub open spec fn is_dat_name(name: Seq<char>) -> bool {
    name.len() >= 4 && name.subrange(name.len() - 4, name.len() as int) == seq!['.', 'd', 'a', 't']
}

/// The key under which a client file is found: its name in lower case, for a name
/// that ends in ".dat" (the ending is matched as written); `None` for another file.
pub fn dat_file_key(file_name: &str) -> (r: Option<String>)
    ensures
        is_dat_name(file_name@) ==> r is Some && r.unwrap()@ == lowercase(file_name@),
        !is_dat_name(file_name@) ==> r is None,
{
    let n = file_name.unicode_len();
    if n >= 4 && file_name.get_char(n - 4) == '.' && file_name.get_char(n - 3) == 'd'
        && file_name.get_char(n - 2) == 'a' && file_name.get_char(n - 1) == 't' {
        proof {
            assert(file_name@.subrange(n - 4, n as int) =~= seq!['.', 'd', 'a', 't']);
        }
        Some(to_lowercase(file_name))
    } else {
        proof {
            if is_dat_name(file_name@) {
                let t = file_name@.subrange(n - 4, n as int);
                assert(t[0] == file_name@[n - 4]);
                assert(t[1] == file_name@[n - 3]);
                assert(t[2] == file_name@[n - 2]);
                assert(t[3] == file_name@[n - 1]);
            }
        }
        None
    }
}

} // verus!
