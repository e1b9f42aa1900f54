//! Data instances of the project's data types, grouped by type name.

use vstd::prelude::*;
use crate::ids::Uuid;
use crate::text::str_equal;
use crate::value::{
    Property, Value, duplicate_properties, find_property, named_props, property_index, props_wf, same_value,
    set_property,
};

verus! {

/// An instance of a data type, with its property values
#[derive(Debug)]
pub struct DataInstance {
    pub id: Uuid,
    pub data_type: String,
    pub properties: Vec<Property>,
}

impl DataInstance {
    /// A new instance of the given type with a fresh id and no properties
    pub fn new(data_type: String) -> (r: Self)
        ensures
            r.data_type == data_type,
            r.properties@.len() == 0,
            crate::ids::is_random_v4(r.id.value),
    {
        DataInstance { id: Uuid::new_v4(), data_type, properties: Vec::new() }
    }
}

/// Instances grouped by type name, each type name once, groups in the
/// order their first instance was added
#[derive(Debug)]
pub struct DataStore {
    pub instances: Vec<(String, Vec<DataInstance>)>,
}

impl Default for DataStore {
    fn default() -> (r: Self)
        ensures
            r.instances@.len() == 0,
    {
        DataStore { instances: Vec::new() }
    }
}

/// All instances, group after group.
pub open spec fn all_of(groups: Seq<(String, Vec<DataInstance>)>) -> Seq<DataInstance>
    decreases groups.len(),
{
    if groups.len() == 0 {
        Seq::empty()
    } else {
        all_of(groups.drop_last()) + groups.last().1@
    }
}

/// The position of the first group named `name`, if any.
pub open spec fn group_index(groups: Seq<(String, Vec<DataInstance>)>, name: Seq<char>) -> Option<int> {
    crate::schema::entry_index(groups, name)
}

/// The position of the first instance with the given id in a list.
pub open spec fn first_id_index(items: Seq<DataInstance>, id: Uuid) -> Option<int>
    decreases items.len(),
{
    if items.len() == 0 {
        None
    } else {
        match first_id_index(items.drop_last(), id) {
            Some(k) => Some(k),
            None => if items.last().id == id {
                Some(items.len() - 1)
            } else {
                None
            },
        }
    }
}

/// Where the first instance with the given id lies: its group and its
/// position in the group (groups in order, instances in order).
pub open spec fn instance_position(groups: Seq<(String, Vec<DataInstance>)>, id: Uuid) -> Option<(int, int)>
    decreases groups.len(),
{
    if groups.len() == 0 {
        None
    } else {
        match instance_position(groups.drop_last(), id) {
            Some(p) => Some(p),
            None => match first_id_index(groups.last().1@, id) {
                Some(k) => Some((groups.len() - 1, k)),
                None => None,
            },
        }
    }
}

proof fn lemma_first_id_prefix(items: Seq<DataInstance>, id: Uuid, n: int)
    requires
        0 <= n <= items.len(),
        first_id_index(items.take(n), id) is Some,
    ensures
        first_id_index(items, id) == first_id_index(items.take(n), id),
        first_id_index(items, id) matches Some(k) && 0 <= k < n && items[k].id == id,
    decreases items.len(),
{
    if n == items.len() {
        assert(items.take(n) =~= items);
        lemma_first_id_found(items, id);
    } else {
        assert(items.drop_last().take(n) =~= items.take(n));
        lemma_first_id_prefix(items.drop_last(), id, n);
    }
}

proof fn lemma_first_id_found(items: Seq<DataInstance>, id: Uuid)
    ensures
        first_id_index(items, id) matches Some(k) ==> 0 <= k < items.len() && items[k].id == id,
    decreases items.len(),
{
    if items.len() > 0 {
        lemma_first_id_found(items.drop_last(), id);
    }
}

proof fn lemma_first_id_step(items: Seq<DataInstance>, id: Uuid, k: int)
    requires
        0 <= k < items.len(),
        first_id_index(items.take(k), id) is None,
    ensures
        first_id_index(items.take(k + 1), id) == if items[k].id == id { Some(k) } else { None::<int> },
{
    assert(items.take(k + 1).drop_last() =~= items.take(k));
}

proof fn lemma_position_prefix(groups: Seq<(String, Vec<DataInstance>)>, id: Uuid, n: int)
    requires
        0 <= n <= groups.len(),
        instance_position(groups.take(n), id) is Some,
    ensures
        instance_position(groups, id) == instance_position(groups.take(n), id),
    decreases groups.len(),
{
    if n == groups.len() {
        assert(groups.take(n) =~= groups);
    } else {
        assert(groups.drop_last().take(n) =~= groups.take(n));
        lemma_position_prefix(groups.drop_last(), id, n);
    }
}

/// The first instance with an id lies inside its group and has that id.
pub proof fn lemma_position_found(groups: Seq<(String, Vec<DataInstance>)>, id: Uuid)
    ensures
        instance_position(groups, id) matches Some((g, k)) ==> 0 <= g < groups.len() && 0 <= k
            < groups[g].1@.len() && groups[g].1@[k].id == id,
    decreases groups.len(),
{
    if groups.len() > 0 {
        lemma_position_found(groups.drop_last(), id);
        lemma_first_id_found(groups.last().1@, id);
    }
}

/// The group and position of the first instance with the given id.
fn locate(groups: &Vec<(String, Vec<DataInstance>)>, id: Uuid) -> (r: Option<(usize, usize)>)
    ensures
        match r {
            Some((g, k)) => instance_position(groups@, id) == Some((g as int, k as int)) && g
                < groups@.len() && k < groups@[g as int].1@.len(),
            None => instance_position(groups@, id) is None,
        },
{
    let mut g: usize = 0;
    while g < groups.len()
        invariant
            g <= groups@.len(),
            instance_position(groups@.take(g as int), id) is None,
        decreases groups@.len() - g,
    {
        let items = &groups[g].1;
        let mut k: usize = 0;
        while k < items.len()
            invariant
                g < groups@.len(),
                *items == groups@[g as int].1,
                k <= items@.len(),
                instance_position(groups@.take(g as int), id) is None,
                first_id_index(items@.take(k as int), id) is None,
            decreases items@.len() - k,
        {
            proof {
                lemma_first_id_step(items@, id, k as int);
            }
            if items[k].id == id {
                proof {
                    lemma_first_id_prefix(items@, id, k + 1);
                    assert(first_id_index(items@, id) == Some(k as int));
                    let next = groups@.take(g + 1);
                    assert(next.drop_last() =~= groups@.take(g as int));
                    assert(next.last() == groups@[g as int]);
                    assert(next.len() == g + 1);
                    assert(instance_position(next.drop_last(), id) is None);
                    assert(next.last().1@ == items@);
                    assert(first_id_index(next.last().1@, id) == Some(k as int));
                    assert(instance_position(next, id) == Some((g as int, k as int)));
                    lemma_position_prefix(groups@, id, g + 1);
                }
                return Some((g, k));
            }
            k = k + 1;
        }
        proof {
            assert(items@.take(k as int) =~= items@);
            let next = groups@.take(g + 1);
            assert(next.drop_last() =~= groups@.take(g as int));
            assert(next.last() == groups@[g as int]);
        }
        g = g + 1;
    }
    assert(groups@.take(g as int) =~= groups@);
    None
}

/// Whether every instance's property list is well formed (each name once).
pub open spec fn instances_wf(groups: Seq<(String, Vec<DataInstance>)>) -> bool {
    forall|g: int, k: int|
        0 <= g < groups.len() && 0 <= k < groups[g].1@.len() ==> #[trigger] props_wf(groups[g].1@[k].properties@)
}

/// Replacing one group's instances by well-formed ones keeps every instance
/// well formed.
proof fn lemma_group_replaced_wf(
    before: Seq<(String, Vec<DataInstance>)>,
    after: Seq<(String, Vec<DataInstance>)>,
    g: int,
)
    requires
        instances_wf(before),
        0 <= g < before.len(),
        after.len() == before.len(),
        forall|h: int| 0 <= h < before.len() && h != g ==> after[h] == before[h],
        forall|k: int| 0 <= k < after[g].1@.len() ==> #[trigger] props_wf(after[g].1@[k].properties@),
    ensures
        instances_wf(after),
{
    assert forall|h: int, k: int| 0 <= h < after.len() && 0 <= k < after[h].1@.len() implies #[trigger] props_wf(
        after[h].1@[k].properties@,
    ) by {
        if h != g {
            assert(after[h] == before[h]);
        }
    }
}

impl DataStore {
    /// Each type name has one group, and each instance's properties are
    /// well formed.
    pub open spec fn wf(&self) -> bool {
        &&& crate::schema::entry_names(self.instances@).no_duplicates()
        &&& instances_wf(self.instances@)
    }

    /// Add an instance to the group of its type (a new group at the end when
    /// the type has none yet).
    pub fn add(&mut self, instance: DataInstance)
        requires
            old(self).wf(),
            props_wf(instance.properties@),
        ensures
            final(self).wf(),
            match group_index(old(self).instances@, instance.data_type@) {
                Some(g) => 0 <= g < old(self).instances@.len() && final(self).instances@.len() == old(self).instances@.len()
                    && (forall|h: int|
                    0 <= h < old(self).instances@.len() && h != g ==> final(self).instances@[h]
                        == old(self).instances@[h]) && final(self).instances@[g].0
                    == old(self).instances@[g].0 && final(self).instances@[g].1@ == old(
                    self,
                ).instances@[g].1@.push(instance),
                None => final(self).instances@.len() == old(self).instances@.len() + 1 && (forall|
                    h: int,
                |
                    0 <= h < old(self).instances@.len() ==> final(self).instances@[h] == old(
                        self,
                    ).instances@[h]) && final(self).instances@.last().0@ == instance.data_type@
                    && final(self).instances@.last().1@ == seq![instance],
            },
    {
        let found = crate::schema::find_entry(&self.instances, instance.data_type.as_str());
        match found {
            Some(g) => {
                let ghost before = self.instances@;
                let mut group = self.instances.remove(g);
                group.1.push(instance);
                self.instances.insert(g, group);
                proof {
                    assert(self.instances@ =~= before.update(g as int, self.instances@[g as int]));
                    assert(crate::schema::entry_names(self.instances@) =~= crate::schema::entry_names(before));
                    let items = self.instances@[g as int].1@;
                    assert forall|k: int| 0 <= k < items.len() implies #[trigger] props_wf(items[k].properties@) by {
                        if k < items.len() - 1 {
                            assert(items[k] == before[g as int].1@[k]);
                        }
                    }
                    lemma_group_replaced_wf(before, self.instances@, g as int);
                }
            },
            None => {
                let ghost before = self.instances@;
                let name = instance.data_type.clone();
                let mut items: Vec<DataInstance> = Vec::new();
                items.push(instance);
                self.instances.push((name, items));
                proof {
                    let names = crate::schema::entry_names(before);
                    assert(crate::schema::entry_names(self.instances@) =~= names.push(self.instances@.last().0@));
                    assert(!names.contains(self.instances@.last().0@)) by {
                        if names.contains(self.instances@.last().0@) {
                            let i = choose|i: int| 0 <= i < names.len() && names[i] == self.instances@.last().0@;
                            assert(before[i].0@ == self.instances@.last().0@);
                        }
                    }
                    let after = self.instances@;
                    assert forall|h: int, k: int| 0 <= h < after.len() && 0 <= k < after[h].1@.len() implies #[trigger] props_wf(
                        after[h].1@[k].properties@,
                    ) by {
                        if h < before.len() {
                            assert(after[h] == before[h]);
                        }
                    }
                }
            },
        }
    }

    /// Remove the first instance with the given id.
    pub fn remove(&mut self, id: Uuid) -> (r: Option<DataInstance>)
        requires
            old(self).wf(),
        ensures
            final(self).wf(),
            match instance_position(old(self).instances@, id) {
                Some((g, k)) => r matches Some(x) && x == old(self).instances@[g].1@[k]
                    && final(self).instances@.len() == old(self).instances@.len() && (forall|h: int|
                    0 <= h < old(self).instances@.len() && h != g ==> final(self).instances@[h]
                        == old(self).instances@[h]) && final(self).instances@[g].0 == old(
                    self,
                ).instances@[g].0 && final(self).instances@[g].1@ == old(self).instances@[g].1@.remove(k),
                None => r is None && final(self).instances@ == old(self).instances@,
            },
    {
        match locate(&self.instances, id) {
            Some((g, k)) => {
                let ghost before = self.instances@;
                let mut group = self.instances.remove(g);
                let x = group.1.remove(k);
                self.instances.insert(g, group);
                proof {
                    assert(self.instances@ =~= before.update(g as int, self.instances@[g as int]));
                    assert(crate::schema::entry_names(self.instances@) =~= crate::schema::entry_names(before));
                    let items = self.instances@[g as int].1@;
                    assert forall|m: int| 0 <= m < items.len() implies #[trigger] props_wf(items[m].properties@) by {
                        if m < k {
                            assert(items[m] == before[g as int].1@[m]);
                        } else {
                            assert(items[m] == before[g as int].1@[m + 1]);
                        }
                    }
                    lemma_group_replaced_wf(before, self.instances@, g as int);
                }
                Some(x)
            },
            None => None,
        }
    }

    /// The first instance with the given id.
    pub fn get(&self, id: Uuid) -> (r: Option<&DataInstance>)
        ensures
            match instance_position(self.instances@, id) {
                Some((g, k)) => r == Some(&self.instances@[g].1@[k]),
                None => r is None,
            },
    {
        match locate(&self.instances, id) {
            Some((g, k)) => Some(&self.instances[g].1[k]),
            None => None,
        }
    }

    /// Set the "name" property of the first instance with the given id to
    /// the text `new_name`; `false` (nothing changed) when no instance has the id.
    pub fn rename_instance(&mut self, id: Uuid, new_name: String) -> (r: bool)
        ensures
            r == instance_position(old(self).instances@, id) is Some,
            old(self).wf() ==> final(self).wf(),
            match instance_position(old(self).instances@, id) {
                Some((g, k)) => {
                    let before = old(self).instances@[g].1@[k];
                    let after = final(self).instances@[g].1@[k];
                    &&& final(self).instances@.len() == old(self).instances@.len()
                    &&& forall|h: int| 0 <= h < old(self).instances@.len() && h != g ==> #[trigger] final(self).instances@[h]
                        == old(self).instances@[h]
                    &&& final(self).instances@[g].0 == old(self).instances@[g].0
                    &&& final(self).instances@[g].1@.len() == old(self).instances@[g].1@.len()
                    &&& forall|m: int| 0 <= m < old(self).instances@[g].1@.len() && m != k ==> #[trigger] final(self).instances@[g].1@[m]
                        == old(self).instances@[g].1@[m]
                    &&& after.id == before.id
                    &&& after.data_type == before.data_type
                    &&& named_props(before.properties@, after.properties@, new_name@)
                },
                None => final(self).instances@ == old(self).instances@,
            },
    {
        match locate(&self.instances, id) {
            Some((g, k)) => {
                let ghost groups = self.instances@;
                let (gname, mut group) = self.instances.remove(g);
                let ghost items = group@;
                let mut inst = group.remove(k);
                let ghost before = inst;
                let key = String::from_str("name");
                proof {
                    reveal_strlit("name");
                }
                set_property(&mut inst.properties, key, Value::String(new_name));
                group.insert(k, inst);
                assert(group@ =~= items.update(k as int, inst));
                self.instances.insert(g, (gname, group));
                assert(self.instances@ =~= groups.update(g as int, (gname, group)));
                proof {
                    assert(crate::schema::entry_names(self.instances@) =~= crate::schema::entry_names(groups));
                    if old(self).wf() {
                        assert(props_wf(before.properties@));
                        assert forall|m: int| 0 <= m < group@.len() implies #[trigger] props_wf(group@[m].properties@) by {
                            if m != k {
                                assert(group@[m] == items[m]);
                            }
                        }
                        lemma_group_replaced_wf(groups, self.instances@, g as int);
                    }
                }
                true
            },
            None => false,
        }
    }

    /// The first instance with the given id, for editing.
    pub fn get_mut(&mut self, id: Uuid) -> (r: Option<&mut DataInstance>)
        ensures
            match instance_position(old(self).instances@, id) {
                Some((g, k)) => (r matches Some(x) && *x == old(self).instances@[g].1@[k]
                    && final(self).instances@.len() == old(self).instances@.len()
                    && (forall|h: int|
                    0 <= h < old(self).instances@.len() && h != g ==> final(self).instances@[h]
                        == old(self).instances@[h]) && final(self).instances@[g].0
                    == old(self).instances@[g].0 && final(self).instances@[g].1@
                    == old(self).instances@[g].1@.update(k, *final(x))),
                None => r is None && final(self).instances@ == old(self).instances@,
            },
            old(self).wf() ==> (final(self).wf() <==> (instance_position(old(self).instances@, id) matches Some((g, k))
                ==> props_wf(final(self).instances@[g].1@[k].properties@))),
    {
        match locate(&self.instances, id) {
            Some((g, k)) => {
                proof {
                    let cur = self.instances@;
                    let items = cur[g as int].1@;
                    assert forall|v: Vec<DataInstance>| #[trigger] crate::schema::entry_names(cur.update(g as int, (cur[g as int].0, v)))
                        == crate::schema::entry_names(cur) by {
                        assert(crate::schema::entry_names(cur.update(g as int, (cur[g as int].0, v))) =~= crate::schema::entry_names(cur));
                    }
                    if instances_wf(cur) {
                        assert forall|v: Vec<DataInstance>| v@ == items.update(k as int, v@[k as int]) && props_wf(v@[k as int].properties@)
                            implies #[trigger] instances_wf(cur.update(g as int, (cur[g as int].0, v))) by {
                            let after = cur.update(g as int, (cur[g as int].0, v));
                            assert forall|m: int| 0 <= m < after[g as int].1@.len() implies #[trigger] props_wf(after[g as int].1@[m].properties@) by {
                                if m != k {
                                    assert(v@[m] == items[m]);
                                }
                            }
                            lemma_group_replaced_wf(cur, after, g as int);
                        }
                    }
                }
                Some(&mut self.instances[g].1[k])
            },
            None => None,
        }
    }

    /// The instances of a type, in the order they were added (none when the
    /// type has no group).
    pub fn get_by_type(&self, data_type: &str) -> (r: &[DataInstance])
        ensures
            match group_index(self.instances@, data_type@) {
                Some(g) => r@ == self.instances@[g].1@,
                None => r@.len() == 0,
            },
    {
        match crate::schema::find_entry(&self.instances, data_type) {
            Some(g) => self.instances[g].1.as_slice(),
            None => &[],
        }
    }

    /// All instances, group after group.
    pub fn all_instances(&self) -> (r: Vec<&DataInstance>)
        ensures
            r@.len() == all_of(self.instances@).len(),
            forall|i: int| 0 <= i < r@.len() ==> *#[trigger] r@[i] == all_of(self.instances@)[i],
    {
        let mut out: Vec<&DataInstance> = Vec::new();
        let mut g: usize = 0;
        while g < self.instances.len()
            invariant
                g <= self.instances@.len(),
                out@.len() == all_of(self.instances@.take(g as int)).len(),
                forall|i: int| 0 <= i < out@.len() ==> *#[trigger] out@[i] == all_of(self.instances@.take(g as int))[i],
            decreases self.instances@.len() - g,
        {
            let items = &self.instances[g].1;
            let ghost base = out@;
            let mut k: usize = 0;
            while k < items.len()
                invariant
                    g < self.instances@.len(),
                    *items == self.instances@[g as int].1,
                    k <= items@.len(),
                    out@.len() == base.len() + k,
                    forall|i: int| 0 <= i < base.len() ==> out@[i] == base[i],
                    forall|i: int| 0 <= i < k ==> *#[trigger] out@[base.len() + i] == items@[i],
                decreases items@.len() - k,
            {
                out.push(&items[k]);
                k = k + 1;
            }
            proof {
                let prev = self.instances@.take(g as int);
                let next = self.instances@.take(g + 1);
                assert(next.drop_last() =~= prev);
                assert(all_of(next) == all_of(prev) + items@);
                assert forall|i: int| 0 <= i < out@.len() implies *#[trigger] out@[i] == all_of(next)[i] by {
                    if i < base.len() {
                        assert(out@[i] == base[i]);
                    } else {
                        assert(out@[base.len() + (i - base.len())] == out@[i]);
                    }
                }
            }
            g = g + 1;
        }
        assert(self.instances@.take(g as int) =~= self.instances@);
        out
    }
}

/// Adding an instance adds it to the instances, group after group.
pub proof fn lemma_add_all_of(
    before: Seq<(String, Vec<DataInstance>)>,
    after: Seq<(String, Vec<DataInstance>)>,
    x: DataInstance,
)
    requires
        match group_index(before, x.data_type@) {
            Some(g) => 0 <= g < before.len() && after.len() == before.len() && (forall|h: int|
                0 <= h < before.len() && h != g ==> after[h] == before[h]) && after[g].1@
                == before[g].1@.push(x),
            None => after.len() == before.len() + 1 && (forall|h: int|
                0 <= h < before.len() ==> after[h] == before[h]) && after.last().1@ == seq![x],
        },
    ensures
        all_of(after).to_multiset() == all_of(before).to_multiset().insert(x),
{
    match group_index(before, x.data_type@) {
        Some(g) => {
            lemma_all_of_update(before, after, g, x);
        },
        None => {
            assert(after.drop_last() =~= before);
            assert(all_of(after) =~= all_of(before).push(x));
            vstd::seq_lib::to_multiset_build(all_of(before), x);
        },
    }
}

proof fn lemma_all_of_update(
    before: Seq<(String, Vec<DataInstance>)>,
    after: Seq<(String, Vec<DataInstance>)>,
    g: int,
    x: DataInstance,
)
    requires
        0 <= g < before.len(),
        after.len() == before.len(),
        forall|h: int| 0 <= h < before.len() && h != g ==> after[h] == before[h],
        after[g].1@ == before[g].1@.push(x),
    ensures
        all_of(after).to_multiset() == all_of(before).to_multiset().insert(x),
    decreases before.len(),
{
    broadcast use vstd::multiset::group_multiset_axioms;
    let b0 = before.drop_last();
    let a0 = after.drop_last();
    if g == before.len() - 1 {
        assert(a0 =~= b0);
        assert(all_of(after) =~= all_of(before).push(x));
        vstd::seq_lib::to_multiset_build(all_of(before), x);
    } else {
        lemma_all_of_update(b0, a0, g, x);
        assert(after.last() == before.last());
        vstd::seq_lib::lemma_multiset_commutative(all_of(b0), before.last().1@);
        vstd::seq_lib::lemma_multiset_commutative(all_of(a0), after.last().1@);
        assert(all_of(after).to_multiset() =~= all_of(before).to_multiset().insert(x));
    }
}

/// Whether `copy` duplicates data instance `orig` (apart from its id).
pub open spec fn is_copy_of(copy: DataInstance, orig: DataInstance) -> bool {
    copy.data_type@ == orig.data_type@ && crate::value::renamed_properties(orig.properties@, copy.properties@)
}

} // verus!
