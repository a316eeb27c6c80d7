//! A mapping from text keys to JSON-like values.
//!
//! [`JSONObject`] keeps one key/value mapping per value kind.  A key is
//! unique only within one kind's mapping: the same key text may hold a value
//! under several kinds at once, and a kind's operations never touch another
//! kind's mapping.  Callers therefore always address a kind explicitly.

use crate::array::JSONArray;
use crate::string_map::assoc_map;
use crate::string_map::keys_distinct;
use crate::string_map::map_get;
use crate::string_map::map_insert;
use crate::string_map::map_remove;
use crate::Null;
use vstd::prelude::*;

verus! {

/// A mapping from text keys to values, internally segregated by value kind
/// into seven independent key/value mappings.
///
/// Float payloads are carried as raw bit patterns (`f32::to_bits`); the
/// container never interprets them.
#[derive(Debug)]
pub struct JSONObject {
    int_pairs: Vec<(String, i32)>,
    float_pairs: Vec<(String, u32)>,
    bool_pairs: Vec<(String, bool)>,
    string_pairs: Vec<(String, String)>,
    array_pairs: Vec<(String, JSONArray)>,
    object_pairs: Vec<(String, JSONObject)>,
    null_pairs: Vec<(String, Null)>,
}

impl JSONObject {
    /// The integer mapping.
    pub closed spec fn int_map(self) -> Map<Seq<char>, i32> {
        assoc_map(self.int_pairs@)
    }

    /// The float mapping (payloads as bit patterns).
    pub closed spec fn float_map(self) -> Map<Seq<char>, u32> {
        assoc_map(self.float_pairs@)
    }

    /// The boolean mapping.
    pub closed spec fn bool_map(self) -> Map<Seq<char>, bool> {
        assoc_map(self.bool_pairs@)
    }

    /// The text mapping.
    pub closed spec fn string_map(self) -> Map<Seq<char>, String> {
        assoc_map(self.string_pairs@)
    }

    /// The nested-array mapping.
    pub closed spec fn array_map(self) -> Map<Seq<char>, JSONArray> {
        assoc_map(self.array_pairs@)
    }

    /// The nested-object mapping.
    pub closed spec fn object_map(self) -> Map<Seq<char>, JSONObject> {
        assoc_map(self.object_pairs@)
    }

    /// The null mapping.
    pub closed spec fn null_map(self) -> Map<Seq<char>, Null> {
        assoc_map(self.null_pairs@)
    }

    /// The object's invariant: each of the seven underlying mappings is
    /// well-formed.
    pub closed spec fn wf(self) -> bool {
        &&& keys_distinct(self.int_pairs@)
        &&& keys_distinct(self.float_pairs@)
        &&& keys_distinct(self.bool_pairs@)
        &&& keys_distinct(self.string_pairs@)
        &&& keys_distinct(self.array_pairs@)
        &&& keys_distinct(self.object_pairs@)
        &&& keys_distinct(self.null_pairs@)
    }

    /// Creates an empty object: every kind's mapping is empty.
    pub fn new() -> (o: JSONObject)
        ensures
            o.wf(),
            o.int_map() == Map::<Seq<char>, i32>::empty(),
            o.float_map() == Map::<Seq<char>, u32>::empty(),
            o.bool_map() == Map::<Seq<char>, bool>::empty(),
            o.string_map() == Map::<Seq<char>, String>::empty(),
            o.array_map() == Map::<Seq<char>, JSONArray>::empty(),
            o.object_map() == Map::<Seq<char>, JSONObject>::empty(),
            o.null_map() == Map::<Seq<char>, Null>::empty(),
    {
        let o = JSONObject {
            int_pairs: Vec::new(),
            float_pairs: Vec::new(),
            bool_pairs: Vec::new(),
            string_pairs: Vec::new(),
            array_pairs: Vec::new(),
            object_pairs: Vec::new(),
            null_pairs: Vec::new(),
        };
        proof {
            assert(o.int_map() =~= Map::<Seq<char>, i32>::empty());
            assert(o.float_map() =~= Map::<Seq<char>, u32>::empty());
            assert(o.bool_map() =~= Map::<Seq<char>, bool>::empty());
            assert(o.string_map() =~= Map::<Seq<char>, String>::empty());
            assert(o.array_map() =~= Map::<Seq<char>, JSONArray>::empty());
            assert(o.object_map() =~= Map::<Seq<char>, JSONObject>::empty());
            assert(o.null_map() =~= Map::<Seq<char>, Null>::empty());
        }
        o
    }

    /// Inserts or overwrites `value` under `key` in the integer mapping only.
    pub fn insert_int(&mut self, key: String, value: i32)
        requires
            old(self).wf(),
        ensures
            final(self).wf(),
            final(self).int_map() == old(self).int_map().insert(key@, value),
            final(self).int_map().contains_key(key@),
            final(self).int_map()[key@] == value,
            final(self).float_map() == old(self).float_map(),
            final(self).bool_map() == old(self).bool_map(),
            final(self).string_map() == old(self).string_map(),
            final(self).array_map() == old(self).array_map(),
            final(self).object_map() == old(self).object_map(),
            final(self).null_map() == old(self).null_map(),
    {
        map_insert(&mut self.int_pairs, key, value);
    }

    /// Inserts or overwrites `value` under `key` in the float mapping only.
    pub fn insert_float(&mut self, key: String, value: u32)
        requires
            old(self).wf(),
        ensures
            final(self).wf(),
            final(self).float_map() == old(self).float_map().insert(key@, value),
            final(self).float_map().contains_key(key@),
            final(self).float_map()[key@] == value,
            final(self).int_map() == old(self).int_map(),
            final(self).bool_map() == old(self).bool_map(),
            final(self).string_map() == old(self).string_map(),
            final(self).array_map() == old(self).array_map(),
            final(self).object_map() == old(self).object_map(),
            final(self).null_map() == old(self).null_map(),
    {
        map_insert(&mut self.float_pairs, key, value);
    }

    /// Inserts or overwrites `value` under `key` in the boolean mapping only.
    pub fn insert_bool(&mut self, key: String, value: bool)
        requires
            old(self).wf(),
        ensures
            final(self).wf(),
            final(self).bool_map() == old(self).bool_map().insert(key@, value),
            final(self).bool_map().contains_key(key@),
            final(self).bool_map()[key@] == value,
            final(self).int_map() == old(self).int_map(),
            final(self).float_map() == old(self).float_map(),
            final(self).string_map() == old(self).string_map(),
            final(self).array_map() == old(self).array_map(),
            final(self).object_map() == old(self).object_map(),
            final(self).null_map() == old(self).null_map(),
    {
        map_insert(&mut self.bool_pairs, key, value);
    }

    /// Inserts or overwrites `value` under `key` in the text mapping only.
    pub fn insert_string(&mut self, key: String, value: String)
        requires
            old(self).wf(),
        ensures
            final(self).wf(),
            final(self).string_map() == old(self).string_map().insert(key@, value),
            final(self).string_map().contains_key(key@),
            final(self).string_map()[key@] == value,
            final(self).int_map() == old(self).int_map(),
            final(self).float_map() == old(self).float_map(),
            final(self).bool_map() == old(self).bool_map(),
            final(self).array_map() == old(self).array_map(),
            final(self).object_map() == old(self).object_map(),
            final(self).null_map() == old(self).null_map(),
    {
        map_insert(&mut self.string_pairs, key, value);
    }

    /// Inserts or overwrites `value` under `key` in the nested-array mapping
    /// only; the object takes ownership of the array.
    pub fn insert_array(&mut self, key: String, value: JSONArray)
        requires
            old(self).wf(),
        ensures
            final(self).wf(),
            final(self).array_map() == old(self).array_map().insert(key@, value),
            final(self).array_map().contains_key(key@),
            final(self).array_map()[key@] == value,
            final(self).int_map() == old(self).int_map(),
            final(self).float_map() == old(self).float_map(),
            final(self).bool_map() == old(self).bool_map(),
            final(self).string_map() == old(self).string_map(),
            final(self).object_map() == old(self).object_map(),
            final(self).null_map() == old(self).null_map(),
    {
        map_insert(&mut self.array_pairs, key, value);
    }

    /// Inserts or overwrites `value` under `key` in the nested-object mapping
    /// only; the object takes ownership of the value.
    pub fn insert_object(&mut self, key: String, value: JSONObject)
        requires
            old(self).wf(),
        ensures
            final(self).wf(),
            final(self).object_map() == old(self).object_map().insert(key@, value),
            final(self).object_map().contains_key(key@),
            final(self).object_map()[key@] == value,
            final(self).int_map() == old(self).int_map(),
            final(self).float_map() == old(self).float_map(),
            final(self).bool_map() == old(self).bool_map(),
            final(self).string_map() == old(self).string_map(),
            final(self).array_map() == old(self).array_map(),
            final(self).null_map() == old(self).null_map(),
    {
        map_insert(&mut self.object_pairs, key, value);
    }

    /// Inserts or overwrites a null under `key` in the null mapping only.
    pub fn insert_null(&mut self, key: String, value: Null)
        requires
            old(self).wf(),
        ensures
            final(self).wf(),
            final(self).null_map() == old(self).null_map().insert(key@, value),
            final(self).null_map().contains_key(key@),
            final(self).null_map()[key@] == value,
            final(self).int_map() == old(self).int_map(),
            final(self).float_map() == old(self).float_map(),
            final(self).bool_map() == old(self).bool_map(),
            final(self).string_map() == old(self).string_map(),
            final(self).array_map() == old(self).array_map(),
            final(self).object_map() == old(self).object_map(),
    {
        map_insert(&mut self.null_pairs, key, value);
    }

    /// Removes and returns the integer under `key`, or `None` when the key is
    /// absent from the integer mapping; no other kind's mapping is affected,
    /// and an absent key leaves the object untouched.
    pub fn delete_int(&mut self, key: String) -> (r: Option<i32>)
        requires
            old(self).wf(),
        ensures
            final(self).wf(),
            final(self).int_map() == old(self).int_map().remove(key@),
            r == (if old(self).int_map().contains_key(key@) {
                Some(old(self).int_map()[key@])
            } else {
                None::<i32>
            }),
            r is None ==> *final(self) == *old(self),
            final(self).float_map() == old(self).float_map(),
            final(self).bool_map() == old(self).bool_map(),
            final(self).string_map() == old(self).string_map(),
            final(self).array_map() == old(self).array_map(),
            final(self).object_map() == old(self).object_map(),
            final(self).null_map() == old(self).null_map(),
    {
        map_remove(&mut self.int_pairs, &key)
    }

    /// Removes and returns the float bits under `key`, or `None` when the key
    /// is absent from the float mapping; no other kind's mapping is affected,
    /// and an absent key leaves the object untouched.
    pub fn delete_float(&mut self, key: String) -> (r: Option<u32>)
        requires
            old(self).wf(),
        ensures
            final(self).wf(),
            final(self).float_map() == old(self).float_map().remove(key@),
            r == (if old(self).float_map().contains_key(key@) {
                Some(old(self).float_map()[key@])
            } else {
                None::<u32>
            }),
            r is None ==> *final(self) == *old(self),
            final(self).int_map() == old(self).int_map(),
            final(self).bool_map() == old(self).bool_map(),
            final(self).string_map() == old(self).string_map(),
            final(self).array_map() == old(self).array_map(),
            final(self).object_map() == old(self).object_map(),
            final(self).null_map() == old(self).null_map(),
    {
        map_remove(&mut self.float_pairs, &key)
    }

    /// Removes and returns the boolean under `key`, or `None` when the key is
    /// absent from the boolean mapping; no other kind's mapping is affected,
    /// and an absent key leaves the object untouched.
    pub fn delete_bool(&mut self, key: String) -> (r: Option<bool>)
        requires
            old(self).wf(),
        ensures
            final(self).wf(),
            final(self).bool_map() == old(self).bool_map().remove(key@),
            r == (if old(self).bool_map().contains_key(key@) {
                Some(old(self).bool_map()[key@])
            } else {
                None::<bool>
            }),
            r is None ==> *final(self) == *old(self),
            final(self).int_map() == old(self).int_map(),
            final(self).float_map() == old(self).float_map(),
            final(self).string_map() == old(self).string_map(),
            final(self).array_map() == old(self).array_map(),
            final(self).object_map() == old(self).object_map(),
            final(self).null_map() == old(self).null_map(),
    {
        map_remove(&mut self.bool_pairs, &key)
    }

    /// Removes and returns the text under `key`, or `None` when the key is
    /// absent from the text mapping; no other kind's mapping is affected,
    /// and an absent key leaves the object untouched.
    pub fn delete_string(&mut self, key: String) -> (r: Option<String>)
        requires
            old(self).wf(),
        ensures
            final(self).wf(),
            final(self).string_map() == old(self).string_map().remove(key@),
            r == (if old(self).string_map().contains_key(key@) {
                Some(old(self).string_map()[key@])
            } else {
                None::<String>
            }),
            r is None ==> *final(self) == *old(self),
            final(self).int_map() == old(self).int_map(),
            final(self).float_map() == old(self).float_map(),
            final(self).bool_map() == old(self).bool_map(),
            final(self).array_map() == old(self).array_map(),
            final(self).object_map() == old(self).object_map(),
            final(self).null_map() == old(self).null_map(),
    {
        map_remove(&mut self.string_pairs, &key)
    }

    /// Removes and returns the nested array under `key`, or `None` when the
    /// key is absent from the nested-array mapping; no other kind's mapping
    /// is affected, and an absent key leaves the object untouched.
    pub fn delete_array(&mut self, key: String) -> (r: Option<JSONArray>)
        requires
            old(self).wf(),
        ensures
            final(self).wf(),
            final(self).array_map() == old(self).array_map().remove(key@),
            r == (if old(self).array_map().contains_key(key@) {
                Some(old(self).array_map()[key@])
            } else {
                None::<JSONArray>
            }),
            r is None ==> *final(self) == *old(self),
            final(self).int_map() == old(self).int_map(),
            final(self).float_map() == old(self).float_map(),
            final(self).bool_map() == old(self).bool_map(),
            final(self).string_map() == old(self).string_map(),
            final(self).object_map() == old(self).object_map(),
            final(self).null_map() == old(self).null_map(),
    {
        map_remove(&mut self.array_pairs, &key)
    }

    /// Removes and returns the nested object under `key`, or `None` when the
    /// key is absent from the nested-object mapping; no other kind's mapping
    /// is affected, and an absent key leaves the object untouched.
    pub fn delete_object(&mut self, key: String) -> (r: Option<JSONObject>)
        requires
            old(self).wf(),
        ensures
            final(self).wf(),
            final(self).object_map() == old(self).object_map().remove(key@),
            r == (if old(self).object_map().contains_key(key@) {
                Some(old(self).object_map()[key@])
            } else {
                None::<JSONObject>
            }),
            r is None ==> *final(self) == *old(self),
            final(self).int_map() == old(self).int_map(),
            final(self).float_map() == old(self).float_map(),
            final(self).bool_map() == old(self).bool_map(),
            final(self).string_map() == old(self).string_map(),
            final(self).array_map() == old(self).array_map(),
            final(self).null_map() == old(self).null_map(),
    {
        map_remove(&mut self.object_pairs, &key)
    }

    /// Removes and returns the null under `key`, or `None` when the key is
    /// absent from the null mapping; no other kind's mapping is affected,
    /// and an absent key leaves the object untouched.
    pub fn delete_null(&mut self, key: String) -> (r: Option<Null>)
        requires
            old(self).wf(),
        ensures
            final(self).wf(),
            final(self).null_map() == old(self).null_map().remove(key@),
            r == (if old(self).null_map().contains_key(key@) {
                Some(old(self).null_map()[key@])
            } else {
                None::<Null>
            }),
            r is None ==> *final(self) == *old(self),
            final(self).int_map() == old(self).int_map(),
            final(self).float_map() == old(self).float_map(),
            final(self).bool_map() == old(self).bool_map(),
            final(self).string_map() == old(self).string_map(),
            final(self).array_map() == old(self).array_map(),
            final(self).object_map() == old(self).object_map(),
    {
        map_remove(&mut self.null_pairs, &key)
    }

    /// Looks up `key` in the integer mapping only.
    pub fn get_int(&self, key: String) -> (r: Option<&i32>)
        requires
            self.wf(),
        ensures
            (match r {
                Some(v) => self.int_map().contains_key(key@) && *v == self.int_map()[key@],
                None => !self.int_map().contains_key(key@),
            }),
    {
        map_get(&self.int_pairs, &key)
    }

    /// Looks up `key` in the float mapping only.
    pub fn get_float(&self, key: String) -> (r: Option<&u32>)
        requires
            self.wf(),
        ensures
            (match r {
                Some(v) => self.float_map().contains_key(key@) && *v == self.float_map()[key@],
                None => !self.float_map().contains_key(key@),
            }),
    {
        map_get(&self.float_pairs, &key)
    }

    /// Looks up `key` in the boolean mapping only.
    pub fn get_bool(&self, key: String) -> (r: Option<&bool>)
        requires
            self.wf(),
        ensures
            (match r {
                Some(v) => self.bool_map().contains_key(key@) && *v == self.bool_map()[key@],
                None => !self.bool_map().contains_key(key@),
            }),
    {
        map_get(&self.bool_pairs, &key)
    }

    /// Looks up `key` in the text mapping only.
    pub fn get_string(&self, key: String) -> (r: Option<&String>)
        requires
            self.wf(),
        ensures
            (match r {
                Some(v) => self.string_map().contains_key(key@) && *v == self.string_map()[key@],
                None => !self.string_map().contains_key(key@),
            }),
    {
        map_get(&self.string_pairs, &key)
    }

    /// Looks up `key` in the nested-array mapping only.
    pub fn get_array(&self, key: String) -> (r: Option<&JSONArray>)
        requires
            self.wf(),
        ensures
            (match r {
                Some(v) => self.array_map().contains_key(key@) && *v == self.array_map()[key@],
                None => !self.array_map().contains_key(key@),
            }),
    {
        map_get(&self.array_pairs, &key)
    }

    /// Looks up `key` in the nested-object mapping only.
    pub fn get_object(&self, key: String) -> (r: Option<&JSONObject>)
        requires
            self.wf(),
        ensures
            (match r {
                Some(v) => self.object_map().contains_key(key@) && *v == self.object_map()[key@],
                None => !self.object_map().contains_key(key@),
            }),
    {
        map_get(&self.object_pairs, &key)
    }

    /// Looks up `key` in the null mapping only.
    pub fn get_null(&self, key: String) -> (r: Option<&Null>)
        requires
            self.wf(),
        ensures
            (match r {
                Some(v) => self.null_map().contains_key(key@) && *v == self.null_map()[key@],
                None => !self.null_map().contains_key(key@),
            }),
    {
        map_get(&self.null_pairs, &key)
    }
}

} // verus!
