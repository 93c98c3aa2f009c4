//! The JSON value type that every envelope and payload is made of, with its
//! mathematical view and the helpers the protocol logic reads it through.

use vstd::prelude::*;

verus! {

/// A JSON value. Numbers are carried as their literal text, so that a value
/// decoded from a line is echoed back exactly as it came and no floating
/// point arithmetic is ever performed.
#[derive(Debug, PartialEq)]
pub enum Json {
    Null,
    Bool(bool),
    /// The literal characters of a JSON number token.
    Num(String),
    Str(String),
    Arr(Vec<Json>),
    Obj(Vec<(String, Json)>),
}

/// The mathematical shape of a [`Json`] value.
pub enum JsonView {
    Null,
    Bool(bool),
    Num(Seq<char>),
    Str(Seq<char>),
    Arr(Seq<JsonView>),
    Obj(Seq<(Seq<char>, JsonView)>),
}

pub open spec fn jview(j: Json) -> JsonView
    decreases j, 1int,
{
    match j {
        Json::Null => JsonView::Null,
        Json::Bool(b) => JsonView::Bool(b),
        Json::Num(s) => JsonView::Num(s@),
        Json::Str(s) => JsonView::Str(s@),
        Json::Arr(a) => {
            proof {
                assert(a == j->Arr_0);
                assert(decreases_to!(j => j->Arr_0));
                assert(decreases_to!(a => a@));
            }
            JsonView::Arr(jviews(a@))
        },
        Json::Obj(m) => {
            proof {
                assert(m == j->Obj_0);
                assert(decreases_to!(j => j->Obj_0));
                assert(decreases_to!(m => m@));
            }
            JsonView::Obj(jviewo(m@))
        },
    }
}

/// The views of a sequence of values, elementwise.
pub open spec fn jviews(s: Seq<Json>) -> Seq<JsonView>
    decreases s, 0int,
{
    if s.len() == 0 {
        Seq::empty()
    } else {
        proof {
            assert(decreases_to!(s => s.last()));
            vstd::seq::axiom_seq_len_decreases(s, s.drop_last());
        }
        jviews(s.drop_last()).push(jview(s.last()))
    }
}

/// The views of an object's entries, elementwise.
pub open spec fn jviewo(s: Seq<(String, Json)>) -> Seq<(Seq<char>, JsonView)>
    decreases s, 0int,
{
    if s.len() == 0 {
        Seq::empty()
    } else {
        proof {
            assert(decreases_to!(s => s.last()));
            assert(decreases_to!(s.last() => s.last().1));
            vstd::seq::axiom_seq_len_decreases(s, s.drop_last());
        }
        jviewo(s.drop_last()).push((s.last().0@, jview(s.last().1)))
    }
}

pub broadcast proof fn jviews_index(s: Seq<Json>)
    ensures
        (#[trigger] jviews(s)).len() == s.len(),
        forall|i: int| 0 <= i < s.len() ==> jviews(s)[i] == jview(s[i]),
    decreases s.len(),
{
    if s.len() > 0 {
        jviews_index(s.drop_last());
        assert forall|i: int| 0 <= i < s.len() implies jviews(s)[i] == jview(s[i]) by {
            if i < s.len() - 1 {
                assert(jviews(s)[i] == jviews(s.drop_last())[i]);
                assert(s.drop_last()[i] == s[i]);
            }
        }
    }
}

pub broadcast proof fn jviewo_index(s: Seq<(String, Json)>)
    ensures
        (#[trigger] jviewo(s)).len() == s.len(),
        forall|i: int|
            0 <= i < s.len() ==> jviewo(s)[i] == (s[i].0@, jview(s[i].1)),
    decreases s.len(),
{
    if s.len() > 0 {
        jviewo_index(s.drop_last());
        assert forall|i: int| 0 <= i < s.len() implies jviewo(s)[i] == (s[i].0@, jview(s[i].1)) by {
            if i < s.len() - 1 {
                assert(jviewo(s)[i] == jviewo(s.drop_last())[i]);
                assert(s.drop_last()[i] == s[i]);
            }
        }
    }
}

pub broadcast group group_json_view {
    jviews_index,
    jviewo_index,
}

impl View for Json {
    type V = JsonView;

    open spec fn view(&self) -> JsonView {
        jview(*self)
    }
}

/// Looks a key up among an object's entries; when a key repeats, the last
/// occurrence decides, as it does when a JSON text is read into a map.
pub open spec fn obj_get(entries: Seq<(Seq<char>, JsonView)>, k: Seq<char>) -> Option<JsonView>
    decreases entries.len(),
{
    if entries.len() == 0 {
        None
    } else if entries.last().0 == k {
        Some(entries.last().1)
    } else {
        obj_get(entries.drop_last(), k)
    }
}

/// Field lookup on any JSON value: only objects have fields.
pub open spec fn jget(v: JsonView, k: Seq<char>) -> Option<JsonView> {
    match v {
        JsonView::Obj(es) => obj_get(es, k),
        _ => None,
    }
}

impl Json {
    /// A reference to the field named `key`, when this value is an object
    /// that holds one.
    #[verifier::loop_isolation(false)]
    pub fn get<'a>(&'a self, key: &str) -> (r: Option<&'a Json>)
        ensures
            match r {
                Some(j) => jget(self@, key@) == Some(jview(*j)),
                None => jget(self@, key@) is None,
            },
    {
        broadcast use group_json_view;

        match self {
            Json::Obj(entries) => {
                let ghost es = jviewo(entries@);
                let k = String::from_str(key);
                let mut i: usize = entries.len();
                proof {
                    assert(es.take(i as int) =~= es);
                }
                while i > 0
                    invariant
                        i <= entries.len(),
                        obj_get(es.take(i as int), key@) == obj_get(es, key@),
                    decreases i,
                {
                    let entry = &entries[i - 1];
                    proof {
                        assert(es.take(i as int).last() == es[i - 1]);
                        assert(es.take(i as int).drop_last() =~= es.take(i - 1));
                    }
                    if entry.0 == k {
                        return Some(&entry.1);
                    }
                    i = i - 1;
                }
                proof {
                    assert(es.take(0) =~= Seq::<(Seq<char>, JsonView)>::empty());
                }
                None
            },
            _ => None,
        }
    }

    /// The string this value holds, when it is a string.
    pub fn as_str<'a>(&'a self) -> (r: Option<&'a String>)
        ensures
            match r {
                Some(s) => self@ == JsonView::Str(s@),
                None => !(self@ is Str),
            },
    {
        match self {
            Json::Str(s) => Some(s),
            _ => None,
        }
    }

    /// An exact copy, made field by field so that the copy's view is known
    /// to equal the original's.
    #[verifier::loop_isolation(false)]
    pub fn dup(&self) -> (r: Json)
        ensures
            r@ == self@,
        decreases self,
    {
        broadcast use group_json_view;

        match self {
            Json::Null => Json::Null,
            Json::Bool(b) => Json::Bool(*b),
            Json::Num(s) => Json::Num(s.clone()),
            Json::Str(s) => Json::Str(s.clone()),
            Json::Arr(a) => {
                let mut out: Vec<Json> = Vec::new();
                let mut i: usize = 0;
                while i < a.len()
                    invariant
                        i <= a.len(),
                        out@.len() == i,
                        forall|j: int| 0 <= j < i ==> jview(#[trigger] out@[j]) == jview(a@[j]),
                    decreases a.len() - i,
                {
                    proof {
                        assert(decreases_to!(*self => a@[i as int])) by {
                            assert(*a == (*self)->Arr_0);
                            assert(decreases_to!(*self => (*self)->Arr_0));
                            assert(decreases_to!(*a => a@));
                            assert(decreases_to!(a@ => a@[i as int]));
                        }
                    }
                    let c = a[i].dup();
                    out.push(c);
                    i = i + 1;
                }
                proof {
                    assert(jviews(out@) =~= jviews(a@));
                }
                Json::Arr(out)
            },
            Json::Obj(m) => {
                let mut out: Vec<(String, Json)> = Vec::new();
                let mut i: usize = 0;
                while i < m.len()
                    invariant
                        i <= m.len(),
                        out@.len() == i,
                        forall|j: int|
                            0 <= j < i ==> #[trigger] out@[j].0@ == m@[j].0@ && jview(out@[j].1)
                                == jview(m@[j].1),
                    decreases m.len() - i,
                {
                    proof {
                        assert(decreases_to!(*self => m@[i as int].1)) by {
                            assert(*m == (*self)->Obj_0);
                            assert(decreases_to!(*self => (*self)->Obj_0));
                            assert(decreases_to!(*m => m@));
                            assert(decreases_to!(m@ => m@[i as int]));
                            assert(decreases_to!(m@[i as int] => m@[i as int].1));
                        }
                    }
                    let k = m[i].0.clone();
                    let v = m[i].1.dup();
                    out.push((k, v));
                    i = i + 1;
                }
                proof {
                    assert(jviewo(out@) =~= jviewo(m@));
                }
                Json::Obj(out)
            },
        }
    }
}

/// Characters a JSON number token may be written with.
pub open spec fn num_char(c: char) -> bool {
    ('0' <= c && c <= '9') || c == '-' || c == '+' || c == '.' || c == 'e' || c == 'E'
}

/// A plausible number literal: nonempty, made of number characters only.
pub open spec fn wf_num(s: Seq<char>) -> bool {
    s.len() > 0 && forall|i: int| 0 <= i < s.len() ==> num_char(s[i])
}

/// Well-formedness of a JSON value: every number literal in it is made of
/// number characters. Values built by this library and values read by its
/// parser all satisfy it; it is what keeps a serialized value on one line.
pub open spec fn wf(v: JsonView) -> bool
    decreases v, 1int,
{
    match v {
        JsonView::Null => true,
        JsonView::Bool(_) => true,
        JsonView::Num(s) => wf_num(s),
        JsonView::Str(_) => true,
        JsonView::Arr(es) => {
            proof {
                assert(es == v->Arr_0);
                assert(decreases_to!(v => v->Arr_0));
            }
            wfs(es)
        },
        JsonView::Obj(es) => {
            proof {
                assert(es == v->Obj_0);
                assert(decreases_to!(v => v->Obj_0));
            }
            wfo(es)
        },
    }
}

/// Every value of the sequence is well-formed.
pub open spec fn wfs(s: Seq<JsonView>) -> bool
    decreases s, 0int,
{
    if s.len() == 0 {
        true
    } else {
        proof {
            assert(decreases_to!(s => s.last()));
            vstd::seq::axiom_seq_len_decreases(s, s.drop_last());
        }
        wfs(s.drop_last()) && wf(s.last())
    }
}

/// Every value among the entries is well-formed.
pub open spec fn wfo(s: Seq<(Seq<char>, JsonView)>) -> bool
    decreases s, 0int,
{
    if s.len() == 0 {
        true
    } else {
        proof {
            assert(decreases_to!(s => s.last()));
            assert(decreases_to!(s.last() => s.last().1));
            vstd::seq::axiom_seq_len_decreases(s, s.drop_last());
        }
        wfo(s.drop_last()) && wf(s.last().1)
    }
}

pub broadcast proof fn wfs_all(s: Seq<JsonView>)
    ensures
        #[trigger] wfs(s) <==> (forall|i: int| 0 <= i < s.len() ==> wf(#[trigger] s[i])),
    decreases s.len(),
{
    if s.len() > 0 {
        wfs_all(s.drop_last());
        assert(forall|i: int| 0 <= i < s.len() - 1 ==> s.drop_last()[i] == #[trigger] s[i]);
    }
}

pub broadcast proof fn wfo_all(s: Seq<(Seq<char>, JsonView)>)
    ensures
        #[trigger] wfo(s) <==> (forall|i: int| 0 <= i < s.len() ==> wf((#[trigger] s[i]).1)),
    decreases s.len(),
{
    if s.len() > 0 {
        wfo_all(s.drop_last());
        assert(forall|i: int| 0 <= i < s.len() - 1 ==> s.drop_last()[i] == #[trigger] s[i]);
    }
}

} // verus!
