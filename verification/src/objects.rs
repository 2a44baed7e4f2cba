//! The objects of the world, each with the versions of it that were added
//! and not yet removed.

use vstd::prelude::*;
use crate::name_index::NameIndex;
use crate::ordered_map::OrderedMap;
use crate::protocol::WorldPos;

verus! {

/// An object of the world. `angle` is a double as its bit pattern.
#[derive(Debug, Clone, PartialEq)]
pub struct Object {
    pub id: i64,
    pub position: WorldPos,
    pub angle: u64,
    pub name: Option<String>,
}

/// The mathematical value of an `Object`.
pub struct ObjectData {
    pub id: i64,
    pub position: WorldPos,
    pub angle: u64,
    pub name: Option<Seq<char>>,
}

impl View for Object {
    type V = ObjectData;

    open spec fn view(&self) -> ObjectData {
        ObjectData {
            id: self.id,
            position: self.position,
            angle: self.angle,
            name: match self.name {
                Some(name) => Some(name@),
                None => None,
            },
        }
    }
}

impl Object {
    /// An object equal to this one.
    pub fn duplicate(&self) -> (result: Object)
        ensures
            result@ == self@,
    {
        Object {
            id: self.id,
            position: self.position,
            angle: self.angle,
            name: match &self.name {
                Some(name) => Some(name.clone()),
                None => None,
            },
        }
    }
}

/// The objects of a snapshot.
#[derive(Debug, Clone, PartialEq)]
pub struct ObjectsData {
    pub objects: Vec<Object>,
}

/// The views of the objects of a list, in order.
pub open spec fn object_views(objects: Seq<Object>) -> Seq<ObjectData> {
    Seq::new(objects.len(), |i: int| objects[i]@)
}

/// The objects by id. Under each id stand the versions of the object that
/// were added and not yet removed, oldest first; the newest is the live one.
pub struct Objects {
    pub objects: OrderedMap<Vec<Object>>,
    pub objects_by_name: NameIndex<i64>,
}

impl Objects {
    /// Whether every id that is held has at least one version, and every
    /// version is held under its id.
    pub open spec fn wf(&self) -> bool {
        &&& self.objects.wf()
        &&& self.objects_by_name.wf()
        &&& forall|k: i128| #[trigger] self.objects@.contains_key(k) ==> self.objects@[k].len() > 0
        &&& forall|k: i128, j: int|
            self.objects@.contains_key(k) && 0 <= j < self.objects@[k].len() ==> (
            #[trigger] self.objects@[k][j]).id as i128 == k
    }

    /// The versions held of the object `id`, oldest first.
    pub open spec fn history(&self, id: i64) -> Seq<ObjectData> {
        if self.objects@.contains_key(id as i128) {
            object_views(self.objects@[id as i128]@)
        } else {
            Seq::empty()
        }
    }

    /// The live version of the object `id`.
    pub open spec fn live(&self, id: i64) -> Option<ObjectData> {
        if self.history(id).len() > 0 {
            Some(self.history(id).last())
        } else {
            None
        }
    }

    /// The id that each name resolves to.
    pub open spec fn names(&self) -> Map<Seq<char>, i64> {
        self.objects_by_name@
    }

    /// The number of objects that have a live version.
    pub open spec fn count(&self) -> nat {
        self.objects@.dom().len()
    }

    pub fn new() -> (result: Self)
        ensures
            result.wf(),
            forall|id: i64| result.history(id) == Seq::<ObjectData>::empty(),
            result.names() == Map::<Seq<char>, i64>::empty(),
            result.count() == 0,
    {
        let result = Objects { objects: OrderedMap::new(), objects_by_name: NameIndex::new() };
        proof {
            result.objects.lemma_len();
        }
        result
    }

    /// Adds a version of an object; it becomes the live one, and the name it
    /// carries resolves to it.
    pub fn add(&mut self, object: Object)
        requires
            old(self).wf(),
        ensures
            final(self).wf(),
            final(self).history(object.id) == old(self).history(object.id).push(object@),
            final(self).live(object.id) == Some(object@),
            forall|id: i64| id != object.id ==> final(self).history(id) == old(self).history(id),
            final(self).names() == match object@.name {
                Some(name) => old(self).names().insert(name, object.id),
                None => old(self).names(),
            },
            final(self).objects@.dom() == old(self).objects@.dom().insert(object.id as i128),
            final(self).count() == old(self).count() + if old(self).live(object.id).is_some() {
                0nat
            } else {
                1nat
            },
    {
        proof {
            self.objects.lemma_len();
        }
        if let Some(name) = &object.name {
            self.objects_by_name.insert(name.clone(), object.id);
        }
        let id = object.id;
        let ghost data = object@;
        let (at, found) = self.objects.find(object.id as i128);
        if found {
            let ghost before = self.objects;
            proof {
                self.objects.lemma_entry(at as int);
            }
            self.objects.values[at].push(object);
            proof {
                before.lemma_value_replaced(&self.objects, at as int);
                assert(self.history(id) =~= old(self).history(id).push(data));
                assert(self.objects@.dom() =~= old(self).objects@.dom().insert(id as i128));
                assert(self.objects@.dom() =~= old(self).objects@.dom());
            }
        } else {
            let mut queue: Vec<Object> = Vec::new();
            queue.push(object);
            self.objects.insert(id as i128, queue);
            proof {
                assert(self.history(id) =~= old(self).history(id).push(data));
                assert(self.objects@.dom() =~= old(self).objects@.dom().insert(id as i128));
                self.objects.lemma_len();
            }
        }
    }

    /// The live version of the object `object_id`.
    pub fn get_by_id(&self, object_id: i64) -> (result: Option<&Object>)
        requires
            self.wf(),
        ensures
            result.is_some() == self.live(object_id).is_some(),
            result.is_some() ==> result.unwrap()@ == self.live(object_id).unwrap(),
    {
        match self.objects.get(object_id as i128) {
            Some(queue) => {
                assert(self.objects@.contains_key(object_id as i128));
                Some(&queue[queue.len() - 1])
            },
            None => None,
        }
    }

    /// The live version of the object that `name` resolves to.
    pub fn get_by_name(&self, name: &String) -> (result: Option<&Object>)
        requires
            self.wf(),
        ensures
            result.is_some() == (self.names().contains_key(name@) && self.live(
                self.names()[name@],
            ).is_some()),
            result.is_some() ==> result.unwrap()@ == self.live(self.names()[name@]).unwrap(),
    {
        match self.objects_by_name.get(name) {
            Some(id) => self.get_by_id(id),
            None => None,
        }
    }

    /// Removes the oldest version of the object `object_id`. Where it was the
    /// only one the object is gone, with the name that version carried, and
    /// the result is `true`.
    pub fn remove(&mut self, object_id: i64) -> (result: bool)
        requires
            old(self).wf(),
        ensures
            final(self).wf(),
            result == (old(self).history(object_id).len() == 1),
            old(self).history(object_id).len() == 0 ==> final(self).history(object_id) == old(
                self,
            ).history(object_id),
            old(self).history(object_id).len() > 0 ==> final(self).history(object_id) == old(
                self,
            ).history(object_id).drop_first(),
            forall|id: i64| id != object_id ==> final(self).history(id) == old(self).history(id),
            final(self).names() == if old(self).history(object_id).len() == 1 {
                match old(self).history(object_id)[0].name {
                    Some(name) => old(self).names().remove(name),
                    None => old(self).names(),
                }
            } else {
                old(self).names()
            },
            final(self).objects@.dom() == if result {
                old(self).objects@.dom().remove(object_id as i128)
            } else {
                old(self).objects@.dom()
            },
            final(self).count() == old(self).count() - if result {
                1nat
            } else {
                0nat
            },
    {
        proof {
            self.objects.lemma_len();
        }
        let (at, found) = self.objects.find(object_id as i128);
        if !found {
            return false;
        }
        proof {
            self.objects.lemma_entry(at as int);
            assert(self.objects@.contains_key(object_id as i128));
        }
        if self.objects.values[at].len() == 1 {
            let removed = self.objects.remove(object_id as i128);
            match removed {
                Some(queue) => {
                    if let Some(name) = &queue[0].name {
                        self.objects_by_name.remove(name);
                    }
                },
                None => {},
            }
            proof {
                assert(self.history(object_id) =~= old(self).history(object_id).drop_first());
                assert(self.objects@.dom() =~= old(self).objects@.dom().remove(object_id as i128));
                vstd::set::axiom_set_remove_len(old(self).objects@.dom(), object_id as i128);
            }
            true
        } else {
            let ghost before = self.objects;
            self.objects.values[at].remove(0);
            proof {
                before.lemma_value_replaced(&self.objects, at as int);
                assert(self.history(object_id) =~= old(self).history(object_id).drop_first());
                assert(self.objects@.dom() =~= old(self).objects@.dom());
            }
            false
        }
    }

    /// Moves the live version of the object `object_id`.
    pub fn update(&mut self, object_id: i64, position: WorldPos, angle: u64) -> (result: bool)
        requires
            old(self).wf(),
        ensures
            final(self).wf(),
            result == old(self).live(object_id).is_some(),
            result ==> final(self).history(object_id) == old(self).history(object_id).update(
                old(self).history(object_id).len() - 1,
                ObjectData { position, angle, ..old(self).live(object_id).unwrap() },
            ),
            result ==> final(self).live(object_id) == Some(
                ObjectData { position, angle, ..old(self).live(object_id).unwrap() },
            ),
            !result ==> final(self).history(object_id) == old(self).history(object_id),
            forall|id: i64| id != object_id ==> final(self).history(id) == old(self).history(id),
            final(self).names() == old(self).names(),
            final(self).objects@.dom() == old(self).objects@.dom(),
            final(self).count() == old(self).count(),
    {
        let (at, found) = self.objects.find(object_id as i128);
        if !found {
            return false;
        }
        proof {
            self.objects.lemma_entry(at as int);
            assert(self.objects@.contains_key(object_id as i128));
        }
        let ghost before = self.objects;
        let last = self.objects.values[at].len() - 1;
        self.objects.values[at][last].position = position;
        self.objects.values[at][last].angle = angle;
        proof {
            assert(self.objects.values@ =~= before.values@.update(
                at as int,
                self.objects.values[at as int],
            ));
            before.lemma_value_replaced(&self.objects, at as int);
            assert(self.objects@.dom() =~= old(self).objects@.dom());
            assert(self.history(object_id) =~= old(self).history(object_id).update(
                old(self).history(object_id).len() - 1,
                ObjectData { position, angle, ..old(self).live(object_id).unwrap() },
            ));
        }
        true
    }

    /// The number of objects.
    pub fn len(&self) -> (result: usize)
        requires
            self.wf(),
        ensures
            result == self.count(),
    {
        self.objects.len()
    }

    /// The live versions of all objects, in the order of their ids.
    pub fn iter(&self) -> (result: Vec<&Object>)
        requires
            self.wf(),
        ensures
            result.len() == self.objects.keys.len(),
            forall|i: int|
                0 <= i < result.len() ==> (#[trigger] result[i])@ == self.objects.values[i]@.last()@,
    {
        let mut result: Vec<&Object> = Vec::new();
        let mut i: usize = 0;
        while i < self.objects.values.len()
            invariant
                self.wf(),
                i <= self.objects.values.len(),
                result.len() == i,
                forall|k: int|
                    0 <= k < i ==> (#[trigger] result[k])@ == self.objects.values[k]@.last()@,
            decreases self.objects.values.len() - i,
        {
            proof {
                self.objects.lemma_entry(i as int);
                assert(self.objects@.contains_key(self.objects.keys[i as int]));
            }
            let queue = &self.objects.values[i];
            result.push(&queue[queue.len() - 1]);
            i += 1;
        }
        result
    }

    /// The live versions of all objects, in the order of their ids.
    pub fn as_objects_data(&self) -> (result: ObjectsData)
        requires
            self.wf(),
        ensures
            result.objects.len() == self.objects.keys.len(),
            forall|i: int|
                0 <= i < result.objects.len() ==> (#[trigger] result.objects[i])@
                    == self.objects.values[i]@.last()@,
    {
        let mut objects: Vec<Object> = Vec::new();
        let mut i: usize = 0;
        while i < self.objects.values.len()
            invariant
                self.wf(),
                i <= self.objects.values.len(),
                objects.len() == i,
                forall|k: int|
                    0 <= k < i ==> (#[trigger] objects[k])@ == self.objects.values[k]@.last()@,
            decreases self.objects.values.len() - i,
        {
            proof {
                self.objects.lemma_entry(i as int);
                assert(self.objects@.contains_key(self.objects.keys[i as int]));
            }
            let queue = &self.objects.values[i];
            objects.push(queue[queue.len() - 1].duplicate());
            i += 1;
        }
        ObjectsData { objects }
    }

    /// The versions held of each object after the first `n` objects of a
    /// snapshot were taken in: one version per id, the last that the
    /// snapshot lists.
    pub open spec fn snapshot_history(objects: Seq<ObjectData>, n: int, id: i64) -> Seq<ObjectData>
        decreases n,
    {
        if n <= 0 {
            Seq::empty()
        } else if objects[n - 1].id == id {
            seq![objects[n - 1]]
        } else {
            Self::snapshot_history(objects, n - 1, id)
        }
    }

    /// What the names resolve to after the first `n` objects of a snapshot
    /// were taken in.
    pub open spec fn snapshot_names(objects: Seq<ObjectData>, n: int) -> Map<Seq<char>, i64>
        decreases n,
    {
        if n <= 0 {
            Map::empty()
        } else {
            match objects[n - 1].name {
                Some(name) => Self::snapshot_names(objects, n - 1).insert(name, objects[n - 1].id),
                None => Self::snapshot_names(objects, n - 1),
            }
        }
    }

    /// Of the live versions of the objects, listed in the order of their
    /// ids, the first `n` taken in anew leave under each id the live
    /// version of that id, and nothing under an id that is not among them.
    pub proof fn lemma_live_taken_anew(&self, data: Seq<ObjectData>, n: int, id: i64)
        requires
            self.wf(),
            data.len() == self.objects.keys.len(),
            forall|i: int| 0 <= i < data.len() ==> #[trigger] data[i] == self.objects.values[i]@.last()@,
            0 <= n <= data.len(),
        ensures
            (forall|i: int| 0 <= i < n ==> #[trigger] self.objects.keys[i] != id as i128)
                ==> Self::snapshot_history(data, n, id) == Seq::<ObjectData>::empty(),
            forall|i: int|
                0 <= i < n && #[trigger] self.objects.keys[i] == id as i128 ==> Self::snapshot_history(
                    data,
                    n,
                    id,
                ) == seq![data[i]],
        decreases n,
    {
        if n > 0 {
            self.lemma_live_taken_anew(data, n - 1, id);
            self.objects.lemma_entry(n - 1);
            let key = self.objects.keys[n - 1];
            let queue = self.objects.values[n - 1];
            assert(self.objects@[key] == queue);
            assert(queue.len() > 0);
            assert(self.objects@[key][queue.len() - 1].id as i128 == key);
            assert(data[n - 1].id as i128 == key);
            assert forall|i: int| 0 <= i < n && #[trigger] self.objects.keys[i]
                == id as i128 implies Self::snapshot_history(
                data,
                n,
                id,
            ) == seq![data[i]] by {
                if i < n - 1 {
                    assert(self.objects.keys[i] < self.objects.keys[n - 1]);
                }
            }
        }
    }

    /// Taking the snapshot of the objects and the objects of that snapshot
    /// keeps the live version of every object.
    pub proof fn lemma_snapshot_keeps_live(&self, data: Seq<ObjectData>, anew: &Objects, id: i64)
        requires
            self.wf(),
            data.len() == self.objects.keys.len(),
            forall|i: int| 0 <= i < data.len() ==> #[trigger] data[i] == self.objects.values[i]@.last()@,
            anew.history(id) == Self::snapshot_history(data, data.len() as int, id),
        ensures
            anew.live(id) == self.live(id),
    {
        self.lemma_live_taken_anew(data, data.len() as int, id);
        if self.objects@.contains_key(id as i128) {
            self.objects.lemma_key_index(id as i128);
            let i = self.objects.keys@.index_of(id as i128);
            assert(self.objects.keys[i] == id as i128);
            assert(anew.history(id) == seq![data[i]]);
            assert(self.history(id).last() == self.objects.values[i]@.last()@);
        } else {
            assert forall|i: int| 0 <= i < data.len() implies #[trigger] self.objects.keys[i]
                != id as i128 by {
                self.objects.lemma_entry(i);
            }
        }
    }

    /// The objects of a snapshot, each as the only version of its id.
    pub fn from_objects_data(data: ObjectsData) -> (result: Self)
        ensures
            result.wf(),
            forall|id: i64|
                result.history(id) == Self::snapshot_history(
                    object_views(data.objects@),
                    data.objects.len() as int,
                    id,
                ),
            result.names() == Self::snapshot_names(
                object_views(data.objects@),
                data.objects.len() as int,
            ),
    {
        let mut result = Objects::new();
        let mut i: usize = 0;
        while i < data.objects.len()
            invariant
                i <= data.objects.len(),
                result.wf(),
                forall|id: i64|
                    result.history(id) == Self::snapshot_history(
                        object_views(data.objects@),
                        i as int,
                        id,
                    ),
                result.names() == Self::snapshot_names(object_views(data.objects@), i as int),
            decreases data.objects.len() - i,
        {
            let object = data.objects[i].duplicate();
            let ghost before = result;
            if let Some(name) = &object.name {
                result.objects_by_name.insert(name.clone(), object.id);
            }
            let id = object.id;
            let ghost view = object@;
            let mut queue: Vec<Object> = Vec::new();
            queue.push(object);
            result.objects.insert(id as i128, queue);
            proof {
                assert(object_views(data.objects@)[i as int] == view);
                assert forall|other: i64|
                    result.history(other) == Self::snapshot_history(
                        object_views(data.objects@),
                        i + 1,
                        other,
                    ) by {
                    if other == id {
                        assert(result.history(other) =~= seq![view]);
                    } else {
                        assert(result.history(other) == before.history(other));
                    }
                }
            }
            i += 1;
        }
        result
    }
}

} // verus!
