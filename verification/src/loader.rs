//! The loader of the Grand Crusade (protocol 110) client files: it turns the
//! records read from the dat files into entities, and hands them to the editor.
use vstd::prelude::*;
use crate::changed_map::FHashMap;
use crate::holder::GameDataHolder;
use crate::entity::{
    item_from_record, npc_from_record, zone_from_record, HuntingZone, HuntingZoneDat,
    HuntingZoneView, Item, ItemNameDat, ItemView, Npc, NpcNameDat, NpcStringDat, NpcView,
};
use crate::vec_util::{
    ascending_ids, ascending_order, lemma_lists_ascending_unique, lists_ascending, reversed,
};
use crate::quest::{
    finish_step_id, law_quest_records_round_trip, quest_from_records, quest_readable, quest_records,
    quest_storable,
    records_well_formed, Quest, QuestNameDat, QuestNameDatView, QuestView,
};
use crate::string_table::L2GeneralStringTable;
use crate::ids::{ItemId, QuestId, RecipeId, SkillId};
use crate::skill::{Skill, SkillView};
use crate::skill_dat::{
    grps_view, initial_state, skill_fold, skill_records, skill_views, skills_count, skills_writable,
    sounds_match, SkillBinaries, SkillGrpDat, SkillNameDat, SkillNameTableRecord, SkillSoundDat,
    SkillSoundSourceDat,
};
use crate::skill_load::{
    dict_view, grp_views, group_runs, kept_of, kept_records, level_record_count, name_map,
    names_by_key, records_readable, runs_readable, skill_from, skill_from_records, skill_runs,
    sound_for, sound_map, sound_or_default, sound_refs_valid, source_for, source_map,
    source_or_default, sounds_by_id, sources_by_id, store_skills, string_dict, texts_by_id,
};
use std::collections::{HashMap, HashSet};
use crate::weapon::{
    weapon_from, weapon_from_records, weapon_readable, AdditionalItemGrpDat, ItemBaseInfoDat,
    ItemStatDataDat, Weapon, WeaponGrpDat, WeaponView,
};
use crate::recipe::{
    law_recipe_round_trip, recipe_from_record, recipe_record, Recipe, RecipeDat, RecipeDatView,
    RecipeView,
};

verus! {

broadcast use vstd::map::group_map_axioms;

/// The client versions the editor can read.
#[derive(Clone, Copy, Debug, PartialEq, Eq, Structural)]
pub enum ChroniclesProtocol {
    GrandCrusade110,
}

impl Default for ChroniclesProtocol {
    fn default() -> (r: Self)
        ensures
            r == ChroniclesProtocol::GrandCrusade110,
    {
        ChroniclesProtocol::GrandCrusade110
    }
}

/// The runs of consecutive records that share a quest id, in order.
pub open spec fn record_runs(recs: Seq<QuestNameDatView>) -> Seq<Seq<QuestNameDatView>>
    decreases recs.len(),
{
    if recs.len() == 0 {
        seq![]
    } else {
        let prev = record_runs(recs.drop_last());
        let v = recs.last();
        if prev.len() > 0 && prev.last().last().id == v.id {
            prev.update(prev.len() - 1, prev.last().push(v))
        } else {
            prev.push(seq![v])
        }
    }
}

/// The quests after each run of records has been turned into a quest and stored
/// under its id, in order; a later run with the same id replaces an earlier one.
pub open spec fn store_runs(m: Map<u32, QuestView>, runs: Seq<Seq<QuestNameDatView>>) -> Map<
    u32,
    QuestView,
>
    decreases runs.len(),
{
    if runs.len() == 0 {
        m
    } else {
        store_runs(m, runs.drop_last()).insert(runs.last()[0].id, quest_from_records(runs.last()))
    }
}

/// The quest ids in the order the file lists them, each run counted once.
pub open spec fn run_ids(runs: Seq<Seq<QuestNameDatView>>) -> Seq<u32> {
    runs.map_values(|r: Seq<QuestNameDatView>| r[0].id)
}

/// The layout marks `m` with the marks of the quests of `ids` cleared (added where
/// missing).
pub open spec fn marks_cleared(m: Map<u32, bool>, ids: Seq<u32>) -> Map<u32, bool> {
    m.union_prefer_right(Map::new(|k: u32| ids.contains(k), |k: u32| false))
}

/// Clearing the mark of one more quest is clearing the marks of the longer list.
proof fn lemma_marks_cleared_push(m: Map<u32, bool>, ids: Seq<u32>, c: u32)
    ensures
        marks_cleared(m, ids).insert(c, false) == marks_cleared(m, ids.push(c)),
{
    let p = ids.push(c);
    assert forall|k: u32| p.contains(k) <==> (ids.contains(k) || k == c) by {
        if ids.contains(k) {
            let i = choose|i: int| 0 <= i < ids.len() && ids[i] == k;
            assert(p[i] == k);
        }
        if k == c {
            assert(p[ids.len() as int] == c);
        }
        if p.contains(k) {
            let i = choose|i: int| 0 <= i < p.len() && p[i] == k;
            if i < ids.len() {
                assert(ids[i] == k);
            }
        }
    }
    assert(marks_cleared(m, ids).insert(c, false) =~= marks_cleared(m, p));
}

/// The values of a map of quests.
pub open spec fn quest_views(m: Map<u32, Quest>) -> Map<u32, QuestView> {
    m.map_values(|q: Quest| q@)
}

/// The items after each record has been read in file order.
pub open spec fn store_items(m: Map<u32, ItemView>, recs: Seq<ItemNameDat>, names: Seq<Seq<char>>) -> Map<
    u32,
    ItemView,
>
    decreases recs.len(),
{
    if recs.len() == 0 {
        m
    } else {
        store_items(m, recs.drop_last(), names).insert(
            recs.last().id,
            item_from_record(recs.last(), names),
        )
    }
}

/// The weapons after each `weapongrp.dat` record has been read in file order, with
/// the item records of its id from the four maps.
pub open spec fn store_weapons(
    m: Map<u32, WeaponView>,
    ws: Seq<WeaponGrpDat>,
    item_names: Map<u32, ItemNameDat>,
    base: Map<u32, ItemBaseInfoDat>,
    add: Map<u32, AdditionalItemGrpDat>,
    stats: Map<u32, ItemStatDataDat>,
    names: Seq<Seq<char>>,
) -> Map<u32, WeaponView>
    decreases ws.len(),
{
    if ws.len() == 0 {
        m
    } else {
        let w = ws.last();
        store_weapons(m, ws.drop_last(), item_names, base, add, stats, names).insert(
            w.id,
            weapon_from(w, item_names[w.id], base[w.id], add[w.id], stats[w.id], names),
        )
    }
}

/// Every weapon record can be read, and each of the four maps holds a record of its id.
pub open spec fn weapons_loadable(
    ws: Seq<WeaponGrpDat>,
    item_names: Map<u32, ItemNameDat>,
    base: Map<u32, ItemBaseInfoDat>,
    add: Map<u32, AdditionalItemGrpDat>,
    stats: Map<u32, ItemStatDataDat>,
) -> bool {
    forall|i: int|
        0 <= i < ws.len() ==> {
            &&& weapon_readable(#[trigger] ws[i])
            &&& item_names.contains_key(ws[i].id)
            &&& base.contains_key(ws[i].id)
            &&& add.contains_key(ws[i].id)
            &&& stats.contains_key(ws[i].id)
        }
}

/// The npcs after each record has been read in file order.
pub open spec fn store_npcs(m: Map<u32, NpcView>, recs: Seq<NpcNameDat>) -> Map<u32, NpcView>
    decreases recs.len(),
{
    if recs.len() == 0 {
        m
    } else {
        store_npcs(m, recs.drop_last()).insert(recs.last().id, npc_from_record(recs.last()))
    }
}

/// The npc strings after each record has been read in file order.
pub open spec fn store_npc_strings(m: Map<u32, Seq<char>>, recs: Seq<NpcStringDat>) -> Map<
    u32,
    Seq<char>,
>
    decreases recs.len(),
{
    if recs.len() == 0 {
        m
    } else {
        store_npc_strings(m, recs.drop_last()).insert(recs.last().id, recs.last().value@)
    }
}

/// The hunting zones after each record has been read in file order.
pub open spec fn store_zones(m: Map<u32, HuntingZoneView>, recs: Seq<HuntingZoneDat>) -> Map<
    u32,
    HuntingZoneView,
>
    decreases recs.len(),
{
    if recs.len() == 0 {
        m
    } else {
        store_zones(m, recs.drop_last()).insert(recs.last().id, zone_from_record(recs.last()))
    }
}

/// Every run is non-empty and holds one quest id.
pub proof fn lemma_record_runs(recs: Seq<QuestNameDatView>)
    ensures
        recs.len() > 0 ==> record_runs(recs).len() > 0 && record_runs(recs).last().len() > 0
            && record_runs(recs).last().last() == recs.last(),
        forall|i: int|
            0 <= i < record_runs(recs).len() ==> (#[trigger] record_runs(recs)[i]).len() > 0,
        forall|i: int, j: int|
            0 <= i < record_runs(recs).len() && 0 <= j < record_runs(recs)[i].len()
                ==> #[trigger] record_runs(recs)[i][j].id == record_runs(recs)[i][0].id,
        records_well_formed(recs) ==> forall|i: int|
            0 <= i < record_runs(recs).len() ==> records_well_formed(#[trigger] record_runs(recs)[i]),
    decreases recs.len(),
{
    if recs.len() > 0 {
        let d = recs.drop_last();
        lemma_record_runs(d);
        if records_well_formed(recs) {
            assert forall|k: int| 0 <= k < d.len() implies (#[trigger] d[k]).goal_types.len()
                >= d[k].goal_ids.len() && d[k].goal_nums.len() >= d[k].goal_ids.len() by {
                assert(d[k] == recs[k]);
            }
            let v = recs.last();
            assert(v == recs[recs.len() - 1]);
            let prev = record_runs(d);
            let runs = record_runs(recs);
            assert forall|i: int| 0 <= i < runs.len() implies records_well_formed(#[trigger] runs[i]) by {
                if prev.len() > 0 && prev.last().last().id == v.id {
                    if i == prev.len() - 1 {
                        let r = prev.last().push(v);
                        assert(runs[i] == r);
                        assert forall|k: int| 0 <= k < r.len() implies (#[trigger] r[k]).goal_types.len()
                            >= r[k].goal_ids.len() && r[k].goal_nums.len() >= r[k].goal_ids.len() by {
                            if k < r.len() - 1 {
                                assert(records_well_formed(prev[prev.len() - 1]));
                                assert(r[k] == prev.last()[k]);
                            }
                        }
                    } else {
                        assert(runs[i] == prev[i]);
                    }
                } else {
                    if i == prev.len() {
                        assert(runs[i] == seq![v]);
                    } else {
                        assert(runs[i] == prev[i]);
                    }
                }
            }
        }
    }
}

/// The records of the quests listed by `ids`, quest after quest.
pub open spec fn quest_records_of(m: Map<u32, QuestView>, ids: Seq<u32>) -> Seq<QuestNameDatView>
    decreases ids.len(),
{
    if ids.len() == 0 {
        seq![]
    } else {
        quest_records_of(m, ids.drop_last()) + quest_records(m[ids.last()])
    }
}

/// The skills listed by `ids`, in order.
pub open spec fn skills_of(m: Map<u32, SkillView>, ids: Seq<u32>) -> Seq<SkillView> {
    ids.map_values(|k: u32| m[k])
}

/// What a save writes: the quest records, the skill records, and the name table
/// with the mark of whether the save added to it.
pub struct SavedBinaries {
    pub quest_name: Vec<QuestNameDat>,
    pub skills: SkillBinaries,
    pub game_data_name: Vec<String>,
    pub game_data_name_changed: bool,
}

/// Whether each map of the loader has been written to since it was made.
pub struct LoaderMarks {
    pub npcs: bool,
    pub npc_strings: bool,
    pub items: bool,
    pub quests: bool,
    pub zones: bool,
    pub skills: bool,
    pub recipes: bool,
    pub weapons: bool,
}

/// No map written to.
pub open spec fn no_marks() -> LoaderMarks {
    LoaderMarks {
        npcs: false,
        npc_strings: false,
        items: false,
        quests: false,
        zones: false,
        skills: false,
        recipes: false,
        weapons: false,
    }
}

/// Some run of skill records has level records, so that a skill is built of it.
pub open spec fn some_skill_built(runs: Seq<Seq<crate::skill_dat::SkillGrpDatView>>) -> bool {
    exists|k: int| 0 <= k < runs.len() && level_record_count(#[trigger] runs[k]) != 0
}

/// The recipes after each record has been read in file order.
pub open spec fn store_recipes(m: Map<u32, RecipeView>, recs: Seq<RecipeDatView>) -> Map<u32, RecipeView>
    decreases recs.len(),
{
    if recs.len() == 0 {
        m
    } else {
        store_recipes(m, recs.drop_last()).insert(recs.last().id, recipe_from_record(recs.last()))
    }
}

/// The loader's state: the name table and the entities read so far.
pub struct Loader110 {
    game_data_name: L2GeneralStringTable,
    npcs: FHashMap<Npc>,
    npc_strings: FHashMap<String>,
    items: FHashMap<Item>,
    quests: FHashMap<Quest>,
    hunting_zones: FHashMap<HuntingZone>,
    skills: FHashMap<Skill>,
    recipes: FHashMap<Recipe>,
    weapons: FHashMap<Weapon>,
}

impl Loader110 {
    /// The quests read so far.
    pub closed spec fn quests_view(&self) -> Map<u32, QuestView> {
        quest_views(self.quests@)
    }

    /// The items read so far.
    pub closed spec fn items_view(&self) -> Map<u32, ItemView> {
        self.items@.map_values(|i: Item| i@)
    }

    /// The npcs read so far.
    pub closed spec fn npcs_view(&self) -> Map<u32, NpcView> {
        self.npcs@.map_values(|i: Npc| i@)
    }

    /// The npc strings read so far.
    pub closed spec fn npc_strings_view(&self) -> Map<u32, Seq<char>> {
        self.npc_strings@.map_values(|s: String| s@)
    }

    /// The hunting zones read so far.
    pub closed spec fn zones_view(&self) -> Map<u32, HuntingZoneView> {
        self.hunting_zones@.map_values(|z: HuntingZone| z@)
    }

    /// The skills read so far.
    pub closed spec fn skills_view(&self) -> Map<u32, SkillView> {
        self.skills@.map_values(|s: Skill| s@)
    }

    /// The recipes read so far.
    pub closed spec fn recipes_view(&self) -> Map<u32, RecipeView> {
        self.recipes@.map_values(|r: Recipe| r@)
    }

    /// Whether each map has been written to.
    pub closed spec fn changed_marks(&self) -> LoaderMarks {
        LoaderMarks {
            npcs: self.npcs.changed(),
            npc_strings: self.npc_strings.changed(),
            items: self.items.changed(),
            quests: self.quests.changed(),
            zones: self.hunting_zones.changed(),
            skills: self.skills.changed(),
            recipes: self.recipes.changed(),
            weapons: self.weapons.changed(),
        }
    }

    /// Whether each quest read so far has had its steps laid out (`Quest::sort_steps`).
    pub closed spec fn quest_marks(&self) -> Map<u32, bool> {
        self.quests@.map_values(|q: Quest| q.steps_sorted)
    }

    /// The weapons read so far.
    pub closed spec fn weapons_view(&self) -> Map<u32, WeaponView> {
        self.weapons@.map_values(|w: Weapon| w@)
    }

    /// Every quest, skill and weapon is stored under its own id.
    pub open spec fn wf(&self) -> bool {
        &&& forall|k: u32| #[trigger] self.quests_view().contains_key(k) ==> self.quests_view()[k].id == QuestId(k)
        &&& forall|k: u32| #[trigger] self.skills_view().contains_key(k) ==> self.skills_view()[k].id == SkillId(k)
        &&& forall|k: u32|
            #[trigger] self.weapons_view().contains_key(k) ==> self.weapons_view()[k].base_info.id == ItemId(k)
    }

    /// Whether the save numbered a text that the name table did not hold.
    pub closed spec fn names_changed(&self) -> bool {
        self.game_data_name.changed()
    }

    /// The name table.
    pub closed spec fn names_view(&self) -> Seq<Seq<char>> {
        self.game_data_name@
    }

    /// A loader with an empty name table and no entities.
    pub fn new() -> (r: Loader110)
        ensures
            r.wf(),
            r.quests_view() == Map::<u32, QuestView>::empty(),
            r.skills_view() == Map::<u32, SkillView>::empty(),
            r.npcs_view() == Map::<u32, NpcView>::empty(),
            r.items_view() == Map::<u32, ItemView>::empty(),
            r.npc_strings_view() == Map::<u32, Seq<char>>::empty(),
            r.zones_view() == Map::<u32, HuntingZoneView>::empty(),
            r.recipes_view() == Map::<u32, RecipeView>::empty(),
            r.weapons_view() == Map::<u32, WeaponView>::empty(),
            r.names_view() == Seq::<Seq<char>>::empty(),
            !r.names_changed(),
            r.changed_marks() == no_marks(),
    {
        let r = Loader110 {
            game_data_name: L2GeneralStringTable::default(),
            npcs: FHashMap::new(),
            npc_strings: FHashMap::new(),
            items: FHashMap::new(),
            quests: FHashMap::new(),
            hunting_zones: FHashMap::new(),
            skills: FHashMap::new(),
            recipes: FHashMap::new(),
            weapons: FHashMap::new(),
        };
        proof {
            assert(quest_views(r.quests@) =~= Map::<u32, QuestView>::empty());
            assert(r.skills_view() =~= Map::<u32, SkillView>::empty());
            assert(r.npcs_view() =~= Map::<u32, NpcView>::empty());
            assert(r.items_view() =~= Map::<u32, ItemView>::empty());
            assert(r.npc_strings_view() =~= Map::<u32, Seq<char>>::empty());
            assert(r.zones_view() =~= Map::<u32, HuntingZoneView>::empty());
            assert(r.recipes_view() =~= Map::<u32, RecipeView>::empty());
            assert(r.weapons_view() =~= Map::<u32, WeaponView>::empty());
        }
        r
    }

    /// Sets the name table, read from `l2gamedataname.dat`.
    pub fn set_game_data_name(&mut self, table: L2GeneralStringTable)
        requires
            old(self).wf(),
        ensures
            final(self).npcs_view() == old(self).npcs_view(),
            final(self).items_view() == old(self).items_view(),
            final(self).npc_strings_view() == old(self).npc_strings_view(),
            final(self).zones_view() == old(self).zones_view(),
            final(self).recipes_view() == old(self).recipes_view(),
            final(self).wf(),
            final(self).skills_view() == old(self).skills_view(),
            final(self).names_view() == table@,
            final(self).quests_view() == old(self).quests_view(),
            final(self).weapons_view() == old(self).weapons_view(),
            final(self).changed_marks() == old(self).changed_marks(),
    {
        self.game_data_name = table;
        proof {
            assert(self.quests_view() == old(self).quests_view());
            assert(self.skills_view() == old(self).skills_view());
            assert(self.weapons_view() == old(self).weapons_view());
        }
    }

    /// Turns a run of records of one quest into that quest and stores it under its
    /// id; an empty run changes nothing.
    pub fn construct_quest(&mut self, current_steps: &Vec<QuestNameDat>)
        requires
            old(self).wf(),
            records_well_formed(current_steps@.map_values(|d: QuestNameDat| d@)),
        ensures
            final(self).npcs_view() == old(self).npcs_view(),
            final(self).items_view() == old(self).items_view(),
            final(self).npc_strings_view() == old(self).npc_strings_view(),
            final(self).zones_view() == old(self).zones_view(),
            final(self).recipes_view() == old(self).recipes_view(),
            final(self).wf(),
            final(self).skills_view() == old(self).skills_view(),
            current_steps@.len() == 0 ==> final(self).quests_view() == old(self).quests_view(),
            current_steps@.len() > 0 ==> final(self).quests_view() == old(self).quests_view().insert(
                current_steps@[0].id,
                quest_from_records(current_steps@.map_values(|d: QuestNameDat| d@)),
            ),
            current_steps@.len() == 0 ==> final(self).quest_marks() == old(self).quest_marks(),
            current_steps@.len() > 0 ==> final(self).quest_marks() == old(self).quest_marks().insert(
                current_steps@[0].id,
                false,
            ),
            final(self).names_view() == old(self).names_view(),
            final(self).weapons_view() == old(self).weapons_view(),
            final(self).changed_marks() == (LoaderMarks { quests: old(self).changed_marks().quests || current_steps@.len() > 0, ..old(self).changed_marks() }),
    {
        if current_steps.len() == 0 {
            proof {
                assert(self.quests_view() == old(self).quests_view());
                assert(self.skills_view() == old(self).skills_view());
                assert(self.weapons_view() == old(self).weapons_view());
            }
            return;
        }
        let x = Quest::from_records(current_steps);
        let id = x.id.0;
        self.quests.insert(id, x);
        proof {
            assert(self.quest_marks() =~= old(self).quest_marks().insert(id, false));
            assert(quest_views(self.quests@) =~= quest_views(old(self).quests@).insert(
                current_steps@[0].id,
                quest_from_records(current_steps@.map_values(|d: QuestNameDat| d@)),
            ));
            assert(self.skills_view() == old(self).skills_view());
            assert(self.weapons_view() == old(self).weapons_view());
            assert forall|k: u32| #[trigger] self.quests_view().contains_key(k) implies self.quests_view()[k].id == QuestId(k) by {
                if k != id {
                    assert(old(self).quests_view().contains_key(k));
                }
            }
        }
    }

    /// Reads the records of `questname-ru.dat`, in file order: each run of records
    /// with one quest id becomes a quest. Returns the quest ids in file order, each
    /// run counted once.
    pub fn load_quests(&mut self, vals: Vec<QuestNameDat>) -> (r: Vec<u32>)
        requires
            old(self).wf(),
            records_well_formed(vals@.map_values(|d: QuestNameDat| d@)),
        ensures
            final(self).npcs_view() == old(self).npcs_view(),
            final(self).items_view() == old(self).items_view(),
            final(self).npc_strings_view() == old(self).npc_strings_view(),
            final(self).zones_view() == old(self).zones_view(),
            final(self).recipes_view() == old(self).recipes_view(),
            final(self).wf(),
            final(self).skills_view() == old(self).skills_view(),
            r@ == run_ids(record_runs(vals@.map_values(|d: QuestNameDat| d@))),
            final(self).quests_view() == store_runs(
                old(self).quests_view(),
                record_runs(vals@.map_values(|d: QuestNameDat| d@)),
            ),
            final(self).quest_marks() == marks_cleared(old(self).quest_marks(), r@),
            final(self).names_view() == old(self).names_view(),
            final(self).weapons_view() == old(self).weapons_view(),
            final(self).changed_marks() == (LoaderMarks { quests: old(self).changed_marks().quests || vals@.len() > 0, ..old(self).changed_marks() }),
    {
        let ghost recs = vals@.map_values(|d: QuestNameDat| d@);
        let n = vals.len();
        let ghost orig = vals@;
        // the records in reverse order, so that `pop` hands them out in file order
        let mut rest = reversed(vals);
        proof {
            assert forall|j: int| 0 <= j < rest@.len() implies (#[trigger] rest@[j])@ == recs[n - 1 - j] by {
                assert(rest@[j] == orig[n - 1 - j]);
            }
        }
        let mut order: Vec<u32> = Vec::new();
        let mut current_id: u32 = 0;
        let mut current_steps: Vec<QuestNameDat> = Vec::new();
        let ghost mut done: Seq<Seq<QuestNameDatView>> = seq![];
        let mut i: usize = 0;
        while rest.len() > 0
            invariant
                i + rest@.len() == n,
                recs.len() == n,
                records_well_formed(recs),
                forall|j: int| 0 <= j < rest@.len() ==> (#[trigger] rest@[j])@ == recs[n - 1 - j],
                i == 0 ==> current_steps@.len() == 0 && done.len() == 0 && order@.len() == 0,
                i > 0 ==> current_steps@.len() > 0,
                i > 0 ==> record_runs(recs.subrange(0, i as int)) == done.push(
                    current_steps@.map_values(|d: QuestNameDat| d@),
                ),
                i > 0 ==> current_id == current_steps@.last().id,
                i > 0 ==> order@ == run_ids(record_runs(recs.subrange(0, i as int))),
                self.quests_view() == store_runs(old(self).quests_view(), done),
                self.quest_marks() == marks_cleared(old(self).quest_marks(), run_ids(done)),
                self.weapons_view() == old(self).weapons_view(),
                self.wf(),
                self.skills_view() == old(self).skills_view(),
                self.names_view() == old(self).names_view(),
                self.npcs_view() == old(self).npcs_view(),
                self.items_view() == old(self).items_view(),
                self.npc_strings_view() == old(self).npc_strings_view(),
                self.zones_view() == old(self).zones_view(),
                self.recipes_view() == old(self).recipes_view(),
                self.changed_marks() == (LoaderMarks { quests: old(self).changed_marks().quests || done.len() > 0, ..old(self).changed_marks() }),
            decreases rest@.len(),
        {
            let v = rest.pop().unwrap();
            let ghost cur = current_steps@.map_values(|d: QuestNameDat| d@);
            let ghost prefix = recs.subrange(0, i as int);
            let ghost next = recs.subrange(0, i + 1);
            proof {
                assert(v@ == recs[i as int]);
                assert(next.drop_last() =~= prefix);
                assert(next.last() == v@);
                lemma_record_runs(prefix);
            }
            if i == 0 || v.id != current_id {
                if i > 0 {
                    proof {
                        lemma_record_runs(prefix);
                        assert(record_runs(prefix).last() == cur);
                        assert(records_well_formed(cur));
                    }
                    self.construct_quest(&current_steps);
                    proof {
                        assert(cur.len() > 0);
                        assert(current_steps@[0]@ == cur[0]);
                        let nd = done.push(cur);
                        assert(nd.drop_last() =~= done);
                        assert(nd.last() == cur);
                        assert(run_ids(nd) =~= run_ids(done).push(cur[0].id));
                        lemma_marks_cleared_push(old(self).quest_marks(), run_ids(done), cur[0].id);
                        done = nd;
                    }
                }
                order.push(v.id);
                current_id = v.id;
                current_steps = Vec::new();
                current_steps.push(v);
                proof {
                    assert(current_steps@.map_values(|d: QuestNameDat| d@) =~= seq![recs[i as int]]);
                    if i > 0 {
                        assert(record_runs(next) =~= record_runs(prefix).push(seq![recs[i as int]]));
                    } else {
                        assert(prefix.len() == 0);
                        assert(record_runs(prefix) =~= Seq::<Seq<QuestNameDatView>>::empty());
                        assert(record_runs(next) =~= seq![seq![recs[i as int]]]);
                    }
                    assert(run_ids(record_runs(next)) =~= order@);
                }
            } else {
                current_steps.push(v);
                proof {
                    let nc = current_steps@.map_values(|d: QuestNameDat| d@);
                    assert(nc =~= cur.push(recs[i as int]));
                    assert(record_runs(prefix).last().last().id == current_id);
                    assert(record_runs(next) =~= record_runs(prefix).update(
                        record_runs(prefix).len() - 1,
                        cur.push(recs[i as int]),
                    ));
                    assert(record_runs(next) =~= done.push(nc));
                    assert(run_ids(record_runs(next)) =~= run_ids(record_runs(prefix)));
                }
            }
            i += 1;
        }
        proof {
            assert(recs.subrange(0, n as int) =~= recs);
            lemma_record_runs(recs);
        }
        if n > 0 {
            let ghost cur = current_steps@.map_values(|d: QuestNameDat| d@);
            proof {
                assert(record_runs(recs).last() == cur);
                assert(records_well_formed(cur));
            }
            self.construct_quest(&current_steps);
            proof {
                let nd = done.push(cur);
                assert(nd.drop_last() =~= done);
                assert(current_steps@[0]@ == cur[0]);
                assert(nd =~= record_runs(recs));
                assert(run_ids(nd) =~= run_ids(done).push(cur[0].id));
                lemma_marks_cleared_push(old(self).quest_marks(), run_ids(done), cur[0].id);
            }
        } else {
            proof {
                assert(record_runs(recs) =~= Seq::<Seq<QuestNameDatView>>::empty());
                assert(run_ids(record_runs(recs)) =~= order@);
                assert(run_ids(done) =~= Seq::<u32>::empty());
                assert(self.quest_marks() =~= marks_cleared(old(self).quest_marks(), order@));
            }
        }
        order
    }

    /// Reads the records of `itemname-ru.dat`, in file order: each becomes an item
    /// named through the name table.
    pub fn load_items(&mut self, vals: Vec<ItemNameDat>)
        requires
            old(self).wf(),
        ensures
            final(self).npcs_view() == old(self).npcs_view(),
            final(self).npc_strings_view() == old(self).npc_strings_view(),
            final(self).zones_view() == old(self).zones_view(),
            final(self).recipes_view() == old(self).recipes_view(),
            final(self).wf(),
            final(self).skills_view() == old(self).skills_view(),
            final(self).items_view() == store_items(old(self).items_view(), vals@, old(self).names_view()),
            final(self).quests_view() == old(self).quests_view(),
            final(self).weapons_view() == old(self).weapons_view(),
            final(self).names_view() == old(self).names_view(),
            final(self).changed_marks() == (LoaderMarks { items: old(self).changed_marks().items || vals@.len() > 0, ..old(self).changed_marks() }),
    {
        let ghost orig = vals@;
        let n = vals.len();
        let mut rest = reversed(vals);
        let mut i: usize = 0;
        while rest.len() > 0
            invariant
                i + rest@.len() == n,
                orig.len() == n,
                rest@ == orig.subrange(i as int, n as int).reverse(),
                self.items_view() == store_items(old(self).items_view(), orig.subrange(0, i as int), old(self).names_view()),
                self.quests_view() == old(self).quests_view(),
                self.weapons_view() == old(self).weapons_view(),
                self.skills_view() == old(self).skills_view(),
                self.names_view() == old(self).names_view(),
                self.npcs_view() == old(self).npcs_view(),
                self.npc_strings_view() == old(self).npc_strings_view(),
                self.zones_view() == old(self).zones_view(),
                self.recipes_view() == old(self).recipes_view(),
                self.changed_marks() == (LoaderMarks { items: old(self).changed_marks().items || i > 0, ..old(self).changed_marks() }),
            decreases rest@.len(),
        {
            let v = rest.pop().unwrap();
            proof {
                assert(v == orig[i as int]);
                assert(orig.subrange(0, i + 1).drop_last() =~= orig.subrange(0, i as int));
                assert(rest@ =~= orig.subrange(i + 1, n as int).reverse());
            }
            let x = Item::from_record(v, &self.game_data_name);
            let id = x.id.0;
            self.items.insert(id, x);
            proof {
                assert(self.items_view() =~= store_items(old(self).items_view(), orig.subrange(0, i + 1), old(self).names_view()));
            }
            i += 1;
        }
        proof {
            assert(orig.subrange(0, n as int) =~= orig);
            assert(self.quests_view() == old(self).quests_view());
            assert(self.skills_view() == old(self).skills_view());
            assert(self.weapons_view() == old(self).weapons_view());
        }
    }

    /// Reads the records of `weapongrp.dat`, in file order: each becomes a weapon,
    /// built with the records of its id from `itemname-ru.dat`, `item_baseinfo.dat`,
    /// `additionalitemgrp.dat` and `itemstatdata.dat`, its links named through the
    /// name table.
    pub fn load_weapons(
        &mut self,
        weapons: Vec<WeaponGrpDat>,
        item_names: &HashMap<u32, ItemNameDat>,
        item_base_info: &HashMap<u32, ItemBaseInfoDat>,
        additional_item_grp: &HashMap<u32, AdditionalItemGrpDat>,
        item_stat: &HashMap<u32, ItemStatDataDat>,
    )
        requires
            old(self).wf(),
            weapons_loadable(weapons@, item_names@, item_base_info@, additional_item_grp@, item_stat@),
        ensures
            final(self).wf(),
            final(self).weapons_view() == store_weapons(
                old(self).weapons_view(),
                weapons@,
                item_names@,
                item_base_info@,
                additional_item_grp@,
                item_stat@,
                old(self).names_view(),
            ),
            final(self).npcs_view() == old(self).npcs_view(),
            final(self).items_view() == old(self).items_view(),
            final(self).npc_strings_view() == old(self).npc_strings_view(),
            final(self).zones_view() == old(self).zones_view(),
            final(self).recipes_view() == old(self).recipes_view(),
            final(self).skills_view() == old(self).skills_view(),
            final(self).quests_view() == old(self).quests_view(),
            final(self).names_view() == old(self).names_view(),
            final(self).changed_marks() == (LoaderMarks { weapons: old(self).changed_marks().weapons || weapons@.len() > 0, ..old(self).changed_marks() }),
    {
        let ghost orig = weapons@;
        let n = weapons.len();
        let mut rest = reversed(weapons);
        let mut i: usize = 0;
        while rest.len() > 0
            invariant
                i + rest@.len() == n,
                orig.len() == n,
                rest@ == orig.subrange(i as int, n as int).reverse(),
                weapons_loadable(orig, item_names@, item_base_info@, additional_item_grp@, item_stat@),
                self.weapons_view() == store_weapons(
                    old(self).weapons_view(),
                    orig.subrange(0, i as int),
                    item_names@,
                    item_base_info@,
                    additional_item_grp@,
                    item_stat@,
                    old(self).names_view(),
                ),
                self.quests_view() == old(self).quests_view(),
                self.skills_view() == old(self).skills_view(),
                self.names_view() == old(self).names_view(),
                self.npcs_view() == old(self).npcs_view(),
                self.items_view() == old(self).items_view(),
                self.npc_strings_view() == old(self).npc_strings_view(),
                self.zones_view() == old(self).zones_view(),
                self.recipes_view() == old(self).recipes_view(),
                self.changed_marks() == (LoaderMarks { weapons: old(self).changed_marks().weapons || i > 0, ..old(self).changed_marks() }),
                self.wf(),
            decreases rest@.len(),
        {
            let w = rest.pop().unwrap();
            proof {
                assert(w == orig[i as int]);
                assert(orig.subrange(0, i + 1).drop_last() =~= orig.subrange(0, i as int));
                assert(orig.subrange(0, i + 1).last() == w);
                assert(rest@ =~= orig.subrange(i + 1, n as int).reverse());
            }
            let ghost old_w = self.weapons_view();
            let ghost old_q = self.quests_view();
            let ghost old_s = self.skills_view();
            let name = item_names.get(&w.id).unwrap();
            let base = item_base_info.get(&w.id).unwrap();
            let add = additional_item_grp.get(&w.id).unwrap();
            let stats = item_stat.get(&w.id).unwrap();
            let x = weapon_from_records(&w, name, base, add, stats, &self.game_data_name);
            let ghost wv = x@;
            self.weapons.insert(w.id, x);
            proof {
                assert(self.weapons_view() =~= old_w.insert(w.id, wv));
                assert(self.quests_view() == old_q);
                assert(self.skills_view() == old_s);
                assert forall|k: u32| #[trigger] self.weapons_view().contains_key(k) implies self.weapons_view()[k].base_info.id == ItemId(k) by {
                    if k != w.id {
                        assert(old_w.contains_key(k));
                    }
                }
                assert(self.weapons_view() =~= store_weapons(
                    old(self).weapons_view(),
                    orig.subrange(0, i + 1),
                    item_names@,
                    item_base_info@,
                    additional_item_grp@,
                    item_stat@,
                    old(self).names_view(),
                ));
            }
            i += 1;
        }
        proof {
            assert(orig.subrange(0, n as int) =~= orig);
            assert(self.quests_view() == old(self).quests_view());
            assert(self.skills_view() == old(self).skills_view());
        }
    }

    /// The weapon with id `id`, if one has been read.
    pub fn get_weapon(&self, id: &u32) -> (r: Option<&Weapon>)
        ensures
            self.weapons_view().contains_key(*id) ==> r is Some && r.unwrap()@ == self.weapons_view()[*id],
            !self.weapons_view().contains_key(*id) ==> r is None,
    {
        self.weapons.get(id)
    }

    /// Number of weapons read.
    pub fn weapons_count(&self) -> (r: usize)
        ensures
            r == self.weapons_view().dom().len(),
    {
        proof {
            assert(self.weapons_view().dom() =~= self.weapons@.dom());
        }
        self.weapons.len()
    }

    /// Reads the records of `npcstring-ru.dat`, in file order.
    pub fn load_npc_strings(&mut self, vals: Vec<NpcStringDat>)
        requires
            old(self).wf(),
        ensures
            final(self).npcs_view() == old(self).npcs_view(),
            final(self).items_view() == old(self).items_view(),
            final(self).zones_view() == old(self).zones_view(),
            final(self).recipes_view() == old(self).recipes_view(),
            final(self).wf(),
            final(self).skills_view() == old(self).skills_view(),
            final(self).npc_strings_view() == store_npc_strings(old(self).npc_strings_view(), vals@),
            final(self).quests_view() == old(self).quests_view(),
            final(self).weapons_view() == old(self).weapons_view(),
            final(self).names_view() == old(self).names_view(),
            final(self).changed_marks() == (LoaderMarks { npc_strings: old(self).changed_marks().npc_strings || vals@.len() > 0, ..old(self).changed_marks() }),
    {
        let ghost orig = vals@;
        let n = vals.len();
        let mut rest = reversed(vals);
        let mut i: usize = 0;
        while rest.len() > 0
            invariant
                i + rest@.len() == n,
                orig.len() == n,
                rest@ == orig.subrange(i as int, n as int).reverse(),
                self.npc_strings_view() == store_npc_strings(old(self).npc_strings_view(), orig.subrange(0, i as int)),
                self.quests_view() == old(self).quests_view(),
                self.weapons_view() == old(self).weapons_view(),
                self.skills_view() == old(self).skills_view(),
                self.names_view() == old(self).names_view(),
                self.npcs_view() == old(self).npcs_view(),
                self.items_view() == old(self).items_view(),
                self.zones_view() == old(self).zones_view(),
                self.recipes_view() == old(self).recipes_view(),
                self.changed_marks() == (LoaderMarks { npc_strings: old(self).changed_marks().npc_strings || i > 0, ..old(self).changed_marks() }),
            decreases rest@.len(),
        {
            let v = rest.pop().unwrap();
            proof {
                assert(v == orig[i as int]);
                assert(orig.subrange(0, i + 1).drop_last() =~= orig.subrange(0, i as int));
                assert(rest@ =~= orig.subrange(i + 1, n as int).reverse());
            }
            self.npc_strings.insert(v.id, v.value);
            proof {
                assert(self.npc_strings_view() =~= store_npc_strings(old(self).npc_strings_view(), orig.subrange(0, i + 1)));
            }
            i += 1;
        }
        proof {
            assert(orig.subrange(0, n as int) =~= orig);
            assert(self.quests_view() == old(self).quests_view());
            assert(self.skills_view() == old(self).skills_view());
            assert(self.weapons_view() == old(self).weapons_view());
        }
    }

    /// Reads the records of `npcname-ru.dat`, in file order.
    pub fn load_npcs(&mut self, vals: Vec<NpcNameDat>)
        requires
            old(self).wf(),
        ensures
            final(self).items_view() == old(self).items_view(),
            final(self).npc_strings_view() == old(self).npc_strings_view(),
            final(self).zones_view() == old(self).zones_view(),
            final(self).recipes_view() == old(self).recipes_view(),
            final(self).wf(),
            final(self).skills_view() == old(self).skills_view(),
            final(self).npcs_view() == store_npcs(old(self).npcs_view(), vals@),
            final(self).quests_view() == old(self).quests_view(),
            final(self).weapons_view() == old(self).weapons_view(),
            final(self).names_view() == old(self).names_view(),
            final(self).changed_marks() == (LoaderMarks { npcs: old(self).changed_marks().npcs || vals@.len() > 0, ..old(self).changed_marks() }),
    {
        let ghost orig = vals@;
        let n = vals.len();
        let mut rest = reversed(vals);
        let mut i: usize = 0;
        while rest.len() > 0
            invariant
                i + rest@.len() == n,
                orig.len() == n,
                rest@ == orig.subrange(i as int, n as int).reverse(),
                self.npcs_view() == store_npcs(old(self).npcs_view(), orig.subrange(0, i as int)),
                self.quests_view() == old(self).quests_view(),
                self.weapons_view() == old(self).weapons_view(),
                self.skills_view() == old(self).skills_view(),
                self.names_view() == old(self).names_view(),
                self.items_view() == old(self).items_view(),
                self.npc_strings_view() == old(self).npc_strings_view(),
                self.zones_view() == old(self).zones_view(),
                self.recipes_view() == old(self).recipes_view(),
                self.changed_marks() == (LoaderMarks { npcs: old(self).changed_marks().npcs || i > 0, ..old(self).changed_marks() }),
            decreases rest@.len(),
        {
            let v = rest.pop().unwrap();
            proof {
                assert(v == orig[i as int]);
                assert(orig.subrange(0, i + 1).drop_last() =~= orig.subrange(0, i as int));
                assert(rest@ =~= orig.subrange(i + 1, n as int).reverse());
            }
            let npc = Npc::from_record(v);
            let id = npc.id.0;
            self.npcs.insert(id, npc);
            proof {
                assert(self.npcs_view() =~= store_npcs(old(self).npcs_view(), orig.subrange(0, i + 1)));
            }
            i += 1;
        }
        proof {
            assert(orig.subrange(0, n as int) =~= orig);
            assert(self.quests_view() == old(self).quests_view());
            assert(self.skills_view() == old(self).skills_view());
            assert(self.weapons_view() == old(self).weapons_view());
        }
    }

    /// Reads the records of `huntingzone-ru.dat`, in file order.
    pub fn load_hunting_zones(&mut self, vals: Vec<HuntingZoneDat>)
        requires
            old(self).wf(),
        ensures
            final(self).npcs_view() == old(self).npcs_view(),
            final(self).items_view() == old(self).items_view(),
            final(self).npc_strings_view() == old(self).npc_strings_view(),
            final(self).recipes_view() == old(self).recipes_view(),
            final(self).wf(),
            final(self).skills_view() == old(self).skills_view(),
            final(self).zones_view() == store_zones(old(self).zones_view(), vals@),
            final(self).quests_view() == old(self).quests_view(),
            final(self).weapons_view() == old(self).weapons_view(),
            final(self).names_view() == old(self).names_view(),
            final(self).changed_marks() == (LoaderMarks { zones: old(self).changed_marks().zones || vals@.len() > 0, ..old(self).changed_marks() }),
    {
        let ghost orig = vals@;
        let n = vals.len();
        let mut rest = reversed(vals);
        let mut i: usize = 0;
        while rest.len() > 0
            invariant
                i + rest@.len() == n,
                orig.len() == n,
                rest@ == orig.subrange(i as int, n as int).reverse(),
                self.zones_view() == store_zones(old(self).zones_view(), orig.subrange(0, i as int)),
                self.quests_view() == old(self).quests_view(),
                self.weapons_view() == old(self).weapons_view(),
                self.skills_view() == old(self).skills_view(),
                self.names_view() == old(self).names_view(),
                self.npcs_view() == old(self).npcs_view(),
                self.items_view() == old(self).items_view(),
                self.npc_strings_view() == old(self).npc_strings_view(),
                self.recipes_view() == old(self).recipes_view(),
                self.changed_marks() == (LoaderMarks { zones: old(self).changed_marks().zones || i > 0, ..old(self).changed_marks() }),
            decreases rest@.len(),
        {
            let v = rest.pop().unwrap();
            proof {
                assert(v == orig[i as int]);
                assert(orig.subrange(0, i + 1).drop_last() =~= orig.subrange(0, i as int));
                assert(rest@ =~= orig.subrange(i + 1, n as int).reverse());
            }
            let z = HuntingZone::from_record(v);
            let id = z.id.0;
            self.hunting_zones.insert(id, z);
            proof {
                assert(self.zones_view() =~= store_zones(old(self).zones_view(), orig.subrange(0, i + 1)));
            }
            i += 1;
        }
        proof {
            assert(orig.subrange(0, n as int) =~= orig);
            assert(self.quests_view() == old(self).quests_view());
            assert(self.skills_view() == old(self).skills_view());
            assert(self.weapons_view() == old(self).weapons_view());
        }
    }

    /// Reads one skill from its records and stores it under its id, with the sound
    /// records that the maps hold for that id (zero records where they hold none); a
    /// run without a level record (sub-level 0) stores nothing.
    pub fn build_skill(
        &mut self,
        skill_grps: &Vec<SkillGrpDat>,
        skill_names: &HashMap<u64, SkillNameDat>,
        string_dict: &HashMap<u32, String>,
        sounds: &HashMap<u32, SkillSoundDat>,
        sources: &HashMap<u32, SkillSoundSourceDat>,
    )
        requires
            old(self).wf(),
            records_readable(grp_views(skill_grps@), skill_names@, dict_view(string_dict@), old(self).names_view().len()),
            sound_refs_valid(sound_for(sounds@, skill_grps@[0].id as u32), old(self).names_view().len()),
        ensures
            final(self).npcs_view() == old(self).npcs_view(),
            final(self).items_view() == old(self).items_view(),
            final(self).npc_strings_view() == old(self).npc_strings_view(),
            final(self).zones_view() == old(self).zones_view(),
            final(self).recipes_view() == old(self).recipes_view(),
            final(self).wf(),
            ({
                let all = grp_views(skill_grps@);
                let id = all[0].id as u32;
                if level_record_count(all) == 0 {
                    final(self).skills_view() == old(self).skills_view()
                } else {
                    final(self).skills_view() == old(self).skills_view().insert(
                        id,
                        skill_from(all, skill_names@, dict_view(string_dict@), sound_for(sounds@, id), source_for(sources@, id), old(self).names_view()),
                    )
                }
            }),
            final(self).names_view() == old(self).names_view(),
            final(self).quests_view() == old(self).quests_view(),
            final(self).weapons_view() == old(self).weapons_view(),
            final(self).changed_marks() == (LoaderMarks { skills: old(self).changed_marks().skills || level_record_count(grp_views(skill_grps@)) != 0, ..old(self).changed_marks() }),
    {
        let id = skill_grps[0].id as u32;
        proof {
            assert(grp_views(skill_grps@)[0] == skill_grps@[0]@);
        }
        let sound = sound_or_default(sounds, id);
        let source = source_or_default(sources, id);
        match skill_from_records(&self.game_data_name, skill_grps, skill_names, string_dict, &sound, &source) {
            Some(skill) => {
                let ghost sv = skill@;
                self.skills.insert(id, skill);
                proof {
                    assert(self.skills_view() =~= old(self).skills_view().insert(id, sv));
                    assert(self.quests_view() == old(self).quests_view());
                    assert(self.weapons_view() == old(self).weapons_view());
                    assert forall|k: u32| #[trigger] self.skills_view().contains_key(k) implies self.skills_view()[k].id == SkillId(k) by {
                        if k != id {
                            assert(old(self).skills_view().contains_key(k));
                        }
                    }
                }
            },
            None => {
                proof {
                    assert(self.quests_view() == old(self).quests_view());
                    assert(self.skills_view() == old(self).skills_view());
                    assert(self.weapons_view() == old(self).weapons_view());
                }
            },
        }
    }

    /// Reads the skills of the skill dat files. Only the records of the skills listed
    /// in `ids` are read; each run of consecutive records with one skill id becomes a
    /// skill (see `build_skill`). The maps that the skills are read with take the
    /// last record for each id or key, and the text dictionary also maps `u32::MAX`
    /// to "NOT EXIST".
    pub fn load_skills(
        &mut self,
        skill_grp: Vec<SkillGrpDat>,
        skill_sound: &Vec<SkillSoundDat>,
        skill_sound_source: &Vec<SkillSoundSourceDat>,
        skill_name_table: &Vec<SkillNameTableRecord>,
        skill_name: &Vec<SkillNameDat>,
        ids: &HashSet<u32>,
    )
        requires
            old(self).wf(),
            forall|i: int, k: int|
                0 <= i < skill_grp@.len() && 0 <= k < skill_grp@[i].animation@.len()
                    ==> (#[trigger] skill_grp@[i].animation@[k]) < old(self).names_view().len(),
            ({
                let kept = kept_records(grp_views(skill_grp@), ids@);
                kept.len() > 0 ==> kept[0].id == skill_grp@[0].id
            }),
            runs_readable(
                skill_runs(kept_records(grp_views(skill_grp@), ids@)),
                names_by_key(skill_name@),
                texts_by_id(skill_name_table@).insert(u32::MAX, "NOT EXIST"@),
                sounds_by_id(skill_sound@),
                old(self).names_view().len(),
            ),
        ensures
            final(self).npcs_view() == old(self).npcs_view(),
            final(self).items_view() == old(self).items_view(),
            final(self).npc_strings_view() == old(self).npc_strings_view(),
            final(self).zones_view() == old(self).zones_view(),
            final(self).recipes_view() == old(self).recipes_view(),
            final(self).wf(),
            final(self).skills_view() == store_skills(
                old(self).skills_view(),
                skill_runs(kept_records(grp_views(skill_grp@), ids@)),
                names_by_key(skill_name@),
                texts_by_id(skill_name_table@).insert(u32::MAX, "NOT EXIST"@),
                sounds_by_id(skill_sound@),
                sources_by_id(skill_sound_source@),
                old(self).names_view(),
            ),
            final(self).names_view() == old(self).names_view(),
            final(self).quests_view() == old(self).quests_view(),
            final(self).weapons_view() == old(self).weapons_view(),
            final(self).changed_marks() == (LoaderMarks { skills: old(self).changed_marks().skills || some_skill_built(skill_runs(kept_records(grp_views(skill_grp@), ids@))), ..old(self).changed_marks() }),
    {
        let sound_map = sound_map(skill_sound);
        let source_map = source_map(skill_sound_source);
        let dict = string_dict(skill_name_table);
        let names = name_map(skill_name);
        let ghost d = dict_view(dict@);
        let kept = kept_of(skill_grp, ids);
        let runs = group_runs(kept);
        let ghost rv = runs@.map_values(|g: Vec<SkillGrpDat>| grp_views(g@));
        let mut j: usize = 0;
        proof {
            assert(rv.take(0) =~= Seq::<Seq<crate::skill_dat::SkillGrpDatView>>::empty());
        }
        while j < runs.len()
            invariant
                j <= runs@.len(),
                rv == runs@.map_values(|g: Vec<SkillGrpDat>| grp_views(g@)),
                runs_readable(rv, names@, d, sound_map@, old(self).names_view().len()),
                d == dict_view(dict@),
                self.names_view() == old(self).names_view(),
                self.npcs_view() == old(self).npcs_view(),
                self.items_view() == old(self).items_view(),
                self.npc_strings_view() == old(self).npc_strings_view(),
                self.zones_view() == old(self).zones_view(),
                self.recipes_view() == old(self).recipes_view(),
                self.quests_view() == old(self).quests_view(),
                self.weapons_view() == old(self).weapons_view(),
                self.wf(),
                self.skills_view() == store_skills(
                    old(self).skills_view(),
                    rv.take(j as int),
                    names@,
                    d,
                    sound_map@,
                    source_map@,
                    old(self).names_view(),
                ),
                self.changed_marks() == (LoaderMarks { skills: old(self).changed_marks().skills || some_skill_built(rv.take(j as int)), ..old(self).changed_marks() }),
            decreases runs@.len() - j,
        {
            proof {
                assert(rv[j as int] == grp_views(runs@[j as int]@));
                assert(records_readable(rv[j as int], names@, d, old(self).names_view().len()));
                assert(rv.take(j + 1).drop_last() =~= rv.take(j as int));
                assert(rv.take(j + 1).last() == rv[j as int]);
                assert(grp_views(runs@[j as int]@)[0] == runs@[j as int]@[0]@);
            }
            self.build_skill(&runs[j], &names, &dict, &sound_map, &source_map);
            j += 1;
        }
        proof {
            assert(rv.take(runs@.len() as int) =~= rv);
        }
    }

    /// The records of every quest, in ascending order of quest id.
    pub fn quest_binaries(&self) -> (r: Vec<QuestNameDat>)
        ensures
            r@.map_values(|d: QuestNameDat| d@) == quest_records_of(
                self.quests_view(),
                ascending_order(self.quests_view().dom()),
            ),
    {
        let keys = self.quests.keys();
        let ids = ascending_ids(&keys);
        proof {
            assert(self.quests_view().dom() =~= self.quests@.dom());
        }
        let mut res: Vec<QuestNameDat> = Vec::new();
        let mut i: usize = 0;
        proof {
            assert(ids@.take(0) =~= Seq::<u32>::empty());
            assert(res@.map_values(|d: QuestNameDat| d@) =~= seq![]);
        }
        while i < ids.len()
            invariant
                i <= ids@.len(),
                ids@.to_set() == self.quests@.dom(),
                res@.map_values(|d: QuestNameDat| d@) == quest_records_of(self.quests_view(), ids@.take(i as int)),
            decreases ids@.len() - i,
        {
            let id = ids[i];
            proof {
                assert(ids@.to_set().contains(id));
                assert(ids@.take(i + 1).drop_last() =~= ids@.take(i as int));
                assert(ids@.take(i + 1).last() == id);
            }
            match self.quests.get(&id) {
                Some(q) => {
                    let mut recs = QuestNameDat::from_quest(q);
                    let ghost before = res@;
                    let ghost rv = recs@;
                    res.append(&mut recs);
                    proof {
                        assert(res@ == before + rv);
                        assert(res@.map_values(|d: QuestNameDat| d@) =~= before.map_values(|d: QuestNameDat| d@) + rv.map_values(|d: QuestNameDat| d@));
                        assert(self.quests_view()[id] == q@);
                    }
                },
                None => {
                    proof {
                        assert(false);
                    }
                },
            }
            i += 1;
        }
        proof {
            assert(ids@.take(ids@.len() as int) =~= ids@);
        }
        res
    }

    /// Writes every skill, in ascending order of skill id, numbering its texts through
    /// the name table (see `skill_records`).
    pub fn skill_binaries(&mut self) -> (r: SkillBinaries)
        requires
            old(self).wf(),
            old(self).names_view().len() + skills_count(
                skills_of(old(self).skills_view(), ascending_order(old(self).skills_view().dom())),
            ) < u32::MAX,
            skills_writable(skills_of(old(self).skills_view(), ascending_order(old(self).skills_view().dom()))),
        ensures
            final(self).npcs_view() == old(self).npcs_view(),
            final(self).items_view() == old(self).items_view(),
            final(self).npc_strings_view() == old(self).npc_strings_view(),
            final(self).zones_view() == old(self).zones_view(),
            final(self).recipes_view() == old(self).recipes_view(),
            final(self).wf(),
            ({
                let st = skill_fold(
                    initial_state(old(self).names_view()),
                    skills_of(old(self).skills_view(), ascending_order(old(self).skills_view().dom())),
                );
                &&& final(self).names_view() == st.gdn
                &&& r.skill_string_table@ == st.sk
                &&& grps_view(r.skill_grp@) == st.grps
                &&& r.skill_name@ == st.names
                &&& sounds_match(r.skill_sound@, r.skill_sound_src@, st)
            }),
            final(self).quests_view() == old(self).quests_view(),
            final(self).weapons_view() == old(self).weapons_view(),
            final(self).skills_view() == old(self).skills_view(),
            final(self).changed_marks() == old(self).changed_marks(),
    {
        let keys = self.skills.keys();
        let ids = ascending_ids(&keys);
        let ghost sv = skills_of(self.skills_view(), ids@);
        proof {
            assert(self.skills_view().dom() =~= self.skills@.dom());
        }
        let mut refs: Vec<&Skill> = Vec::new();
        let mut i: usize = 0;
        while i < ids.len()
            invariant
                i <= ids@.len(),
                ids@.to_set() == self.skills@.dom(),
                refs@.len() == i,
                forall|j: int| 0 <= j < i ==> (#[trigger] refs@[j])@ == self.skills_view()[ids@[j]],
            decreases ids@.len() - i,
        {
            let id = ids[i];
            proof {
                assert(ids@.to_set().contains(id));
            }
            match self.skills.get(&id) {
                Some(sk) => {
                    refs.push(sk);
                },
                None => {
                    proof {
                        assert(false);
                    }
                },
            }
            i += 1;
        }
        proof {
            assert(skill_views(refs@) =~= sv);
        }
        let r = skill_records(&refs, &mut self.game_data_name);
        proof {
            assert(self.quests_view() == old(self).quests_view());
            assert(self.skills_view() == old(self).skills_view());
            assert(self.weapons_view() == old(self).weapons_view());
        }
        r
    }

    /// Everything a save writes: the quest records and the skill records in ascending
    /// order of id, and the name table after the skill texts were numbered.
    pub fn serialize_to_binary(&mut self) -> (r: SavedBinaries)
        requires
            old(self).wf(),
            old(self).names_view().len() + skills_count(
                skills_of(old(self).skills_view(), ascending_order(old(self).skills_view().dom())),
            ) < u32::MAX,
            skills_writable(skills_of(old(self).skills_view(), ascending_order(old(self).skills_view().dom()))),
        ensures
            final(self).npcs_view() == old(self).npcs_view(),
            final(self).items_view() == old(self).items_view(),
            final(self).npc_strings_view() == old(self).npc_strings_view(),
            final(self).zones_view() == old(self).zones_view(),
            final(self).recipes_view() == old(self).recipes_view(),
            final(self).wf(),
            r.quest_name@.map_values(|d: QuestNameDat| d@) == quest_records_of(
                old(self).quests_view(),
                ascending_order(old(self).quests_view().dom()),
            ),
            ({
                let st = skill_fold(
                    initial_state(old(self).names_view()),
                    skills_of(old(self).skills_view(), ascending_order(old(self).skills_view().dom())),
                );
                &&& final(self).names_view() == st.gdn
                &&& r.skills.skill_string_table@ == st.sk
                &&& grps_view(r.skills.skill_grp@) == st.grps
                &&& r.skills.skill_name@ == st.names
                &&& sounds_match(r.skills.skill_sound@, r.skills.skill_sound_src@, st)
            }),
            r.game_data_name@.map_values(|v: String| v@) == final(self).names_view(),
            r.game_data_name_changed == final(self).names_changed(),
            final(self).quests_view() == old(self).quests_view(),
            final(self).weapons_view() == old(self).weapons_view(),
            final(self).skills_view() == old(self).skills_view(),
            final(self).changed_marks() == old(self).changed_marks(),
    {
        let quest_name = self.quest_binaries();
        let skills = self.skill_binaries();
        let game_data_name = self.game_data_name.to_vec();
        let game_data_name_changed = self.game_data_name.was_changed();
        SavedBinaries { quest_name, skills, game_data_name, game_data_name_changed }
    }

    /// Reads the records of `recipe.dat`, in file order.
    pub fn load_recipes(&mut self, vals: Vec<RecipeDat>)
        requires
            old(self).wf(),
        ensures
            final(self).npcs_view() == old(self).npcs_view(),
            final(self).items_view() == old(self).items_view(),
            final(self).npc_strings_view() == old(self).npc_strings_view(),
            final(self).zones_view() == old(self).zones_view(),
            final(self).wf(),
            final(self).recipes_view() == store_recipes(
                old(self).recipes_view(),
                vals@.map_values(|d: RecipeDat| d@),
            ),
            final(self).quests_view() == old(self).quests_view(),
            final(self).weapons_view() == old(self).weapons_view(),
            final(self).skills_view() == old(self).skills_view(),
            final(self).names_view() == old(self).names_view(),
            final(self).changed_marks() == (LoaderMarks { recipes: old(self).changed_marks().recipes || vals@.len() > 0, ..old(self).changed_marks() }),
    {
        let ghost orig = vals@;
        let ghost recs = vals@.map_values(|d: RecipeDat| d@);
        let n = vals.len();
        let mut rest = reversed(vals);
        let mut i: usize = 0;
        while rest.len() > 0
            invariant
                i + rest@.len() == n,
                orig.len() == n,
                recs == orig.map_values(|d: RecipeDat| d@),
                rest@ == orig.subrange(i as int, n as int).reverse(),
                self.recipes_view() == store_recipes(old(self).recipes_view(), recs.subrange(0, i as int)),
                self.quests_view() == old(self).quests_view(),
                self.weapons_view() == old(self).weapons_view(),
                self.skills_view() == old(self).skills_view(),
                self.names_view() == old(self).names_view(),
                self.npcs_view() == old(self).npcs_view(),
                self.items_view() == old(self).items_view(),
                self.npc_strings_view() == old(self).npc_strings_view(),
                self.zones_view() == old(self).zones_view(),
                self.changed_marks() == (LoaderMarks { recipes: old(self).changed_marks().recipes || i > 0, ..old(self).changed_marks() }),
            decreases rest@.len(),
        {
            let v = rest.pop().unwrap();
            proof {
                assert(v == orig[i as int]);
                assert(recs.subrange(0, i + 1).drop_last() =~= recs.subrange(0, i as int));
                assert(recs.subrange(0, i + 1).last() == v@);
                assert(rest@ =~= orig.subrange(i + 1, n as int).reverse());
            }
            let x = Recipe::from_record(&v);
            let id = x.id.0;
            self.recipes.insert(id, x);
            proof {
                assert(self.recipes_view() =~= store_recipes(old(self).recipes_view(), recs.subrange(0, i + 1)));
            }
            i += 1;
        }
        proof {
            assert(recs.subrange(0, n as int) =~= recs);
            assert(self.quests_view() == old(self).quests_view());
            assert(self.skills_view() == old(self).skills_view());
            assert(self.weapons_view() == old(self).weapons_view());
        }
    }

    /// The records of every recipe, one for each, in the order the map walks them.
    pub fn recipe_binaries(&mut self) -> (r: Vec<RecipeDat>)
        ensures
            r@.len() == old(self).recipes_view().dom().len(),
            exists|ks: Seq<u32>|
                #![trigger ks.to_set()]
                ks.no_duplicates() && ks.to_set() == old(self).recipes_view().dom() && ks.len() == r@.len()
                    && forall|i: int| 0 <= i < ks.len() ==> (#[trigger] r@[i])@ == recipe_record(old(self).recipes_view()[ks[i]]),
            final(self).recipes_view() == old(self).recipes_view(),
            final(self).names_view() == old(self).names_view(),
            final(self).quests_view() == old(self).quests_view(),
            final(self).weapons_view() == old(self).weapons_view(),
            final(self).skills_view() == old(self).skills_view(),
            final(self).wf() == old(self).wf(),
            final(self).changed_marks() == old(self).changed_marks(),
    {
        let vals = self.recipes.values();
        let ghost ks = choose|ks: Seq<u32>|
            #![trigger ks.to_set()]
            ks.no_duplicates() && ks.to_set() == self.recipes@.dom() && ks.len() == vals@.len() && forall|i: int|
                0 <= i < ks.len() ==> #[trigger] vals@[i] == self.recipes@[ks[i]];
        let mut res: Vec<RecipeDat> = Vec::new();
        let mut i: usize = 0;
        while i < vals.len()
            invariant
                i <= vals@.len(),
                ks.len() == vals@.len(),
                forall|j: int| 0 <= j < ks.len() ==> #[trigger] vals@[j] == self.recipes@[ks[j]],
                ks.to_set() == self.recipes@.dom(),
                res@.len() == i,
                forall|j: int| 0 <= j < i ==> (#[trigger] res@[j])@ == recipe_record(self.recipes_view()[ks[j]]),
                self.recipes_view() == old(self).recipes_view(),
                self.names_view() == old(self).names_view(),
                self.quests_view() == old(self).quests_view(),
                self.weapons_view() == old(self).weapons_view(),
                self.skills_view() == old(self).skills_view(),
                self.changed_marks() == old(self).changed_marks(),
            decreases vals@.len() - i,
        {
            proof {
                assert(ks.to_set().contains(ks[i as int]));
            }
            let d = RecipeDat::from(vals[i], &mut self.game_data_name);
            res.push(d);
            i += 1;
        }
        proof {
            assert(self.recipes_view().dom() =~= self.recipes@.dom());
            assert(self.quests_view() == old(self).quests_view());
            assert(self.skills_view() == old(self).skills_view());
            assert(self.weapons_view() == old(self).weapons_view());
        }
        res
    }

    /// Hands the entities over to the editor.
    pub fn to_holder(self) -> (r: GameDataHolder)
        ensures
            r.protocol_version == ChroniclesProtocol::GrandCrusade110,
            r.quest_holder@.map_values(|q: Quest| q@) == self.quests_view(),
            r.skill_holder@.map_values(|s: Skill| s@) == self.skills_view(),
            r.npc_holder@.map_values(|n: Npc| n@) == self.npcs_view(),
            r.item_holder@.map_values(|i: Item| i@) == self.items_view(),
            r.npc_strings@.map_values(|s: String| s@) == self.npc_strings_view(),
            r.hunting_zone_holder@.map_values(|z: HuntingZone| z@) == self.zones_view(),
            r.recipe_holder@.map_values(|x: Recipe| x@) == self.recipes_view(),
            r.weapon_holder@.map_values(|w: Weapon| w@) == self.weapons_view(),
            r.game_string_table@ == self.names_view(),
            r.npc_holder.changed() == self.changed_marks().npcs,
            r.npc_strings.changed() == self.changed_marks().npc_strings,
            r.item_holder.changed() == self.changed_marks().items,
            r.quest_holder.changed() == self.changed_marks().quests,
            r.skill_holder.changed() == self.changed_marks().skills,
            r.hunting_zone_holder.changed() == self.changed_marks().zones,
            r.recipe_holder.changed() == self.changed_marks().recipes,
            r.weapon_holder.changed() == self.changed_marks().weapons,
    {
        GameDataHolder {
            protocol_version: ChroniclesProtocol::GrandCrusade110,
            npc_holder: self.npcs,
            npc_strings: self.npc_strings,
            item_holder: self.items,
            quest_holder: self.quests,
            skill_holder: self.skills,
            hunting_zone_holder: self.hunting_zones,
            recipe_holder: self.recipes,
            weapon_holder: self.weapons,
            game_string_table: self.game_data_name,
        }
    }

    /// A loader for saving what the editor holds: its quests, skills and name table;
    /// nothing else.
    pub fn from_holder(game_data_holder: &GameDataHolder) -> (r: Loader110)
        ensures
            r.quests_view() == game_data_holder.quest_holder@.map_values(|q: Quest| q@),
            r.skills_view() == game_data_holder.skill_holder@.map_values(|s: Skill| s@),
            r.names_view() == game_data_holder.game_string_table@,
            r.names_changed() == game_data_holder.game_string_table.changed(),
            r.npcs_view() == Map::<u32, NpcView>::empty(),
            r.items_view() == Map::<u32, ItemView>::empty(),
            r.recipes_view() == Map::<u32, RecipeView>::empty(),
            r.weapons_view() == Map::<u32, WeaponView>::empty(),
            r.npc_strings_view() == Map::<u32, Seq<char>>::empty(),
            r.zones_view() == Map::<u32, HuntingZoneView>::empty(),
            r.changed_marks() == (LoaderMarks {
                quests: game_data_holder.quest_holder.changed(),
                skills: game_data_holder.skill_holder.changed(),
                ..no_marks()
            }),
    {
        let r = Loader110 {
            game_data_name: game_data_holder.game_string_table.clone(),
            npcs: FHashMap::new(),
            npc_strings: FHashMap::new(),
            items: FHashMap::new(),
            quests: game_data_holder.quest_holder.clone(),
            hunting_zones: FHashMap::new(),
            skills: game_data_holder.skill_holder.clone(),
            recipes: FHashMap::new(),
            weapons: FHashMap::new(),
        };
        proof {
            assert(r.npcs_view() =~= Map::<u32, NpcView>::empty());
            assert(r.items_view() =~= Map::<u32, ItemView>::empty());
            assert(r.recipes_view() =~= Map::<u32, RecipeView>::empty());
        }
        r
    }
}

/// Reading back the records of recipes that are each stored under their own id,
/// listed once each in any order, gives back exactly the recipes of the listed ids.
pub proof fn lemma_store_recipes_back(m: Map<u32, RecipeView>, ks: Seq<u32>)
    requires
        ks.no_duplicates(),
        forall|i: int| 0 <= i < ks.len() ==> m.contains_key(#[trigger] ks[i]),
        forall|k: u32| #[trigger] m.contains_key(k) ==> m[k].id == RecipeId(k),
    ensures
        store_recipes(Map::empty(), ks.map_values(|k: u32| recipe_record(m[k]))) == m.restrict(ks.to_set()),
    decreases ks.len(),
{
    if ks.len() > 0 {
        let d = ks.drop_last();
        assert(d.no_duplicates()) by {
            assert forall|i: int, j: int| 0 <= i < d.len() && 0 <= j < d.len() && i != j implies d[i] != d[j] by {
                assert(d[i] == ks[i] && d[j] == ks[j]);
            }
        }
        assert forall|i: int| 0 <= i < d.len() implies m.contains_key(#[trigger] d[i]) by {
            assert(d[i] == ks[i]);
        }
        lemma_store_recipes_back(m, d);
        let recs = ks.map_values(|k: u32| recipe_record(m[k]));
        assert(recs.drop_last() =~= d.map_values(|k: u32| recipe_record(m[k])));
        let k = ks.last();
        law_recipe_round_trip(m[k]);
        assert(recs.last() == recipe_record(m[k]));
        assert(m.restrict(ks.to_set()) =~= m.restrict(d.to_set()).insert(k, m[k])) by {
            assert forall|x: u32| ks.to_set().contains(x) <==> d.to_set().contains(x) || x == k by {
                if ks.contains(x) && x != k {
                    let i = choose|i: int| 0 <= i < ks.len() && ks[i] == x;
                    assert(i < ks.len() - 1);
                    assert(d[i] == x);
                }
                if d.contains(x) {
                    let i = choose|i: int| 0 <= i < d.len() && d[i] == x;
                    assert(ks[i] == x);
                }
                if x == k {
                    assert(ks[ks.len() - 1] == x);
                }
            }
        }
    } else {
        assert(m.restrict(ks.to_set()) =~= Map::empty());
    }
}

/// Saving the recipes and loading what was saved into an empty loader gives back
/// the same recipes, where each is stored under its own id (as loading stores them).
pub proof fn law_recipes_save_then_load(m: Map<u32, RecipeView>, ks: Seq<u32>)
    requires
        ks.no_duplicates(),
        ks.to_set() == m.dom(),
        forall|k: u32| #[trigger] m.contains_key(k) ==> m[k].id == RecipeId(k),
    ensures
        store_recipes(Map::empty(), ks.map_values(|k: u32| recipe_record(m[k]))) == m,
{
    assert forall|i: int| 0 <= i < ks.len() implies m.contains_key(#[trigger] ks[i]) by {
        assert(ks.to_set().contains(ks[i]));
    }
    lemma_store_recipes_back(m, ks);
    assert(m.restrict(ks.to_set()) =~= m);
}

/// Appending a run of records of one id, other than the id of the last record so
/// far, adds that run as a run of its own.
proof fn lemma_runs_append(a: Seq<QuestNameDatView>, b: Seq<QuestNameDatView>, k: u32)
    requires
        b.len() > 0,
        forall|i: int| 0 <= i < b.len() ==> (#[trigger] b[i]).id == k,
        a.len() > 0 ==> a.last().id != k,
    ensures
        record_runs(a + b) == record_runs(a).push(b),
    decreases b.len(),
{
    lemma_record_runs(a);
    let d = b.drop_last();
    assert((a + b).drop_last() =~= a + d);
    assert((a + b).last() == b.last());
    if d.len() == 0 {
        assert(a + d =~= a);
        assert(b =~= seq![b.last()]);
    } else {
        assert forall|i: int| 0 <= i < d.len() implies (#[trigger] d[i]).id == k by {
            assert(d[i] == b[i]);
        }
        lemma_runs_append(a, d, k);
        let prev = record_runs(a).push(d);
        assert(prev.last().last() == d.last());
        assert(d.last() == b[b.len() - 2]);
        assert(prev.update(prev.len() - 1, d.push(b.last())) =~= record_runs(a).push(b)) by {
            assert(d.push(b.last()) =~= b);
        }
    }
}

proof fn lemma_quests_save_then_load(m: Map<u32, QuestView>, ks: Seq<u32>)
    requires
        forall|i: int, j: int| 0 <= i < j < ks.len() ==> ks[i] < ks[j],
        forall|i: int| 0 <= i < ks.len() ==> m.contains_key(#[trigger] ks[i]),
        forall|k: u32| #[trigger] m.contains_key(k) ==> m[k].id == QuestId(k) && quest_storable(m[k]),
    ensures
        store_runs(Map::empty(), record_runs(quest_records_of(m, ks))) == m.restrict(ks.to_set()),
        run_ids(record_runs(quest_records_of(m, ks))) == ks,
        ks.len() > 0 ==> quest_records_of(m, ks).len() > 0 && quest_records_of(m, ks).last().id == ks.last(),
    decreases ks.len(),
{
    if ks.len() == 0 {
        assert(m.restrict(ks.to_set()) =~= Map::empty());
        assert(run_ids(record_runs(quest_records_of(m, ks))) =~= ks);
    } else {
        let d = ks.drop_last();
        let k = ks.last();
        assert forall|i: int, j: int| 0 <= i < j < d.len() implies d[i] < d[j] by {
            assert(d[i] == ks[i] && d[j] == ks[j]);
        }
        assert forall|i: int| 0 <= i < d.len() implies m.contains_key(#[trigger] d[i]) by {
            assert(d[i] == ks[i]);
        }
        lemma_quests_save_then_load(m, d);
        assert(m.contains_key(k) && m.contains_key(ks[ks.len() - 1]));
        let q = m[k];
        law_quest_records_round_trip(q);
        let a = quest_records_of(m, d);
        let b = quest_records(q);
        assert(b.len() > 0);
        assert forall|i: int| 0 <= i < b.len() implies (#[trigger] b[i]).id == k by {}
        if d.len() > 0 {
            assert(d.last() == ks[ks.len() - 2]);
            assert(d.last() < k);
        }
        lemma_runs_append(a, b, k);
        assert(quest_records_of(m, ks) == a + b);
        assert(b[0].id == k);
        assert((a + b).last() == b.last());
        let runs = record_runs(a).push(b);
        assert(runs.drop_last() =~= record_runs(a));
        assert(runs.last() == b);
        assert(m.restrict(ks.to_set()) =~= m.restrict(d.to_set()).insert(k, q)) by {
            assert forall|x: u32| ks.to_set().contains(x) <==> d.to_set().contains(x) || x == k by {
                if ks.contains(x) && x != k {
                    let i = choose|i: int| 0 <= i < ks.len() && ks[i] == x;
                    assert(i < ks.len() - 1);
                    assert(d[i] == x);
                }
                if d.contains(x) {
                    let i = choose|i: int| 0 <= i < d.len() && d[i] == x;
                    assert(ks[i] == x);
                }
                if x == k {
                    assert(ks[ks.len() - 1] == x);
                }
            }
        }
        assert(run_ids(runs) =~= run_ids(record_runs(a)).push(k));
        assert(ks =~= d.push(k));
    }
}

/// Writing a quest as records (`QuestNameDat::from_quest`) and reading them into the
/// loader (`construct_quest`) stores under the quest's id the same quest, but for its
/// finish step number, which reading takes from the lowest finish level of its
/// steps; the other quests stay as they were.
pub proof fn law_quest_write_then_construct(quests: Map<u32, QuestView>, q: QuestView)
    requires
        quest_readable(q),
    ensures
        quest_records(q).len() > 0,
        records_well_formed(quest_records(q)),
        quests.insert(quest_records(q)[0].id, quest_from_records(quest_records(q))) == quests.insert(
            q.id.0,
            (QuestView { last_finish_step_id: finish_step_id(quest_records(q)), ..q }),
        ),
{
    law_quest_records_round_trip(q);
    let b = quest_records(q);
    assert(b.len() > 0);
    assert(b[0].id == q.id.0);
}

/// Saving the quests and loading the saved records gives back the same quests, and
/// loading lists their ids in ascending order, where every quest is stored under its
/// own id and can be stored (see `quest_storable`).
pub proof fn law_quests_save_then_load(m: Map<u32, QuestView>, ks: Seq<u32>)
    requires
        lists_ascending(ks, m.dom()),
        forall|k: u32| #[trigger] m.contains_key(k) ==> m[k].id == QuestId(k) && quest_storable(m[k]),
    ensures
        ks == ascending_order(m.dom()),
        store_runs(Map::empty(), record_runs(quest_records_of(m, ascending_order(m.dom())))) == m,
        run_ids(record_runs(quest_records_of(m, ascending_order(m.dom())))) == ascending_order(m.dom()),
{
    lemma_lists_ascending_unique(ks, ascending_order(m.dom()), m.dom());
    assert forall|i: int| 0 <= i < ks.len() implies m.contains_key(#[trigger] ks[i]) by {
        assert(ks.to_set().contains(ks[i]));
    }
    lemma_quests_save_then_load(m, ks);
    assert(m.restrict(ks.to_set()) =~= m);
}

} // verus!
