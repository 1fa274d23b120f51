//! A structured payload value: the JSON-equivalent tree that messages,
//! tasks and memory entries carry. Keeping the tree as plain data lets every
//! function that reads a payload state exactly what it reads.

use vstd::prelude::*;

verus! {

broadcast use
    vstd::std_specs::vec::axiom_vec_decreases_to_view,
    vstd::std_specs::vec::axiom_vec_index_decreases,
    vstd::seq::axiom_seq_index_decreases;

/// A JSON-equivalent structured value.
#[derive(Debug)]
pub enum JsonValue {
    Null,
    Bool(bool),
    Int(i64),
    Str(String),
    Arr(Vec<JsonValue>),
    Obj(Vec<(String, JsonValue)>),
}

/// Ghost form of [`JsonValue`]: strings become character sequences.
pub enum JsonView {
    Null,
    Bool(bool),
    Int(int),
    Str(Seq<char>),
    Arr(Seq<JsonView>),
    Obj(Seq<(Seq<char>, JsonView)>),
}

/// Ghost form of an array body.
pub open spec fn arr_view(items: Seq<JsonValue>) -> Seq<JsonView>
    decreases items,
{
    Seq::new(
        items.len(),
        |i: int|
            if 0 <= i < items.len() {
                items[i].view()
            } else {
                JsonView::Null
            },
    )
}

/// Ghost form of an object body: each binding keyed by its characters.
pub open spec fn pairs_view(pairs: Seq<(String, JsonValue)>) -> Seq<(Seq<char>, JsonView)>
    decreases pairs,
{
    Seq::new(
        pairs.len(),
        |i: int|
            if 0 <= i < pairs.len() {
                (pairs[i].0@, pairs[i].1.view())
            } else {
                (Seq::<char>::empty(), JsonView::Null)
            },
    )
}

impl View for JsonValue {
    type V = JsonView;

    open spec fn view(&self) -> JsonView
        decreases self,
    {
        match self {
            JsonValue::Null => JsonView::Null,
            JsonValue::Bool(b) => JsonView::Bool(*b),
            JsonValue::Int(i) => JsonView::Int(*i as int),
            JsonValue::Str(s) => JsonView::Str(s@),
            JsonValue::Arr(items) => JsonView::Arr(arr_view(items@)),
            JsonValue::Obj(pairs) => JsonView::Obj(pairs_view(pairs@)),
        }
    }
}

impl DeepView for JsonValue {
    type V = JsonView;

    open spec fn deep_view(&self) -> JsonView {
        self.view()
    }
}

impl JsonView {
    /// The value under `key` in an object view: the first binding wins.
    pub open spec fn lookup(self, key: Seq<char>) -> Option<JsonView> {
        match self {
            JsonView::Obj(pairs) => Self::lookup_pairs(pairs, key),
            _ => None,
        }
    }

    /// First binding for `key` in a sequence of pairs.
    pub open spec fn lookup_pairs(pairs: Seq<(Seq<char>, JsonView)>, key: Seq<char>) -> Option<
        JsonView,
    >
        decreases pairs.len(),
    {
        if pairs.len() == 0 {
            None
        } else if pairs[0].0 == key {
            Some(pairs[0].1)
        } else {
            Self::lookup_pairs(pairs.skip(1), key)
        }
    }
}

impl JsonValue {
    /// An empty object, the conventional default payload.
    pub fn empty_object() -> (r: JsonValue)
        ensures
            r@ == JsonView::Obj(Seq::<(Seq<char>, JsonView)>::empty()),
    {
        let v: Vec<(String, JsonValue)> = Vec::new();
        let r = JsonValue::Obj(v);
        proof {
            assert(r@->Obj_0 =~= Seq::<(Seq<char>, JsonView)>::empty());
        }
        r
    }

    /// Value-preserving copy.
    #[verifier::loop_isolation(false)]
    pub fn duplicate(&self) -> (r: JsonValue)
        ensures
            r@ == self@,
        decreases self,
    {
        match self {
            JsonValue::Null => JsonValue::Null,
            JsonValue::Bool(b) => JsonValue::Bool(*b),
            JsonValue::Int(i) => JsonValue::Int(*i),
            JsonValue::Str(s) => JsonValue::Str(s.clone()),
            JsonValue::Arr(items) => {
                let mut out: Vec<JsonValue> = Vec::new();
                let mut k: usize = 0;
                while k < items.len()
                    invariant
                        k <= items.len(),
                        out.len() == k,
                        forall|j: int| 0 <= j < k ==> out@[j]@ == items@[j]@,
                    decreases items.len() - k,
                {
                    out.push(items[k].duplicate());
                    k += 1;
                }
                let r = JsonValue::Arr(out);
                proof {
                    assert(arr_view(out@) =~= arr_view(items@));
                }
                r
            },
            JsonValue::Obj(pairs) => {
                let mut out: Vec<(String, JsonValue)> = Vec::new();
                let mut k: usize = 0;
                while k < pairs.len()
                    invariant
                        k <= pairs.len(),
                        out.len() == k,
                        forall|j: int| 0 <= j < k ==> out@[j].0@ == pairs@[j].0@ && out@[j].1@
                            == pairs@[j].1@,
                    decreases pairs.len() - k,
                {
                    let key = pairs[k].0.clone();
                    let val = pairs[k].1.duplicate();
                    out.push((key, val));
                    k += 1;
                }
                let r = JsonValue::Obj(out);
                proof {
                    assert(pairs_view(out@) =~= pairs_view(pairs@));
                }
                r
            },
        }
    }

    /// The value under `key` when this is an object; `None` otherwise.
    #[verifier::loop_isolation(false)]
    pub fn get(&self, key: &str) -> (r: Option<&JsonValue>)
        ensures
            match r {
                Some(v) => self@.lookup(key@) == Some(v@),
                None => self@.lookup(key@) is None,
            },
    {
        match self {
            JsonValue::Obj(pairs) => {
                let key_owned = key.to_owned();
                let ghost pview = pairs_view(pairs@);
                proof {
                    assert(pview.skip(0) =~= pview);
                }
                let mut k: usize = 0;
                while k < pairs.len()
                    invariant
                        k <= pairs.len(),
                        JsonView::lookup_pairs(pview, key@) == JsonView::lookup_pairs(
                            pview.skip(k as int),
                            key@,
                        ),
                    decreases pairs.len() - k,
                {
                    let hit = pairs[k].0 == key_owned;
                    proof {
                        assert(pview[k as int] == (pairs@[k as int].0@, pairs@[k as int].1@));
                        assert(pview.skip(k as int)[0] == pview[k as int]);
                    }
                    if hit {
                        return Some(&pairs[k].1);
                    }
                    proof {
                        assert(pview.skip(k as int).skip(1) =~= pview.skip(k as int + 1));
                    }
                    k += 1;
                }
                proof {
                    assert(pview.skip(k as int) =~= Seq::<(Seq<char>, JsonView)>::empty());
                }
                None
            },
            _ => None,
        }
    }

    /// The characters of a string value.
    pub fn as_str(&self) -> (r: Option<&String>)
        ensures
            match r {
                Some(s) => self@ == JsonView::Str(s@),
                None => !(self@ is Str),
            },
    {
        match self {
            JsonValue::Str(s) => Some(s),
            _ => None,
        }
    }

    /// The boolean payload of a `Bool` value.
    pub fn as_bool(&self) -> (r: Option<bool>)
        ensures
            match r {
                Some(b) => self@ == JsonView::Bool(b),
                None => !(self@ is Bool),
            },
    {
        match self {
            JsonValue::Bool(b) => Some(*b),
            _ => None,
        }
    }

    /// The integer payload of an `Int` value.
    pub fn as_int(&self) -> (r: Option<i64>)
        ensures
            match r {
                Some(i) => self@ == JsonView::Int(i as int),
                None => !(self@ is Int),
            },
    {
        match self {
            JsonValue::Int(i) => Some(*i),
            _ => None,
        }
    }
}

} // verus!
