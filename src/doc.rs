use vstd::prelude::*;

verus! {

broadcast use vstd::std_specs::vec::group_vec_axioms;

/// A tree-shaped document: the value of a linked resource.
#[derive(Debug)]
pub enum Doc {
    Null,
    Bool(bool),
    /// A number, kept in its textual form.
    Number(String),
    Str(String),
    Array(Vec<Doc>),
    /// Key/value entries, in their order.
    Object(Vec<(String, Doc)>),
}

/// `r` is `d` with every string leaf equal to `from` replaced by `to`; keys,
/// order and every other node stay as they are.
pub open spec fn is_rewrite(d: Doc, r: Doc, from: Seq<char>, to: Seq<char>) -> bool
    decreases d,
{
    match d {
        Doc::Null => r is Null,
        Doc::Bool(b) => r == Doc::Bool(b),
        Doc::Number(n) => r is Number && r->Number_0@ == n@,
        Doc::Str(s) => r is Str && r->Str_0@ == (if s@ == from { to } else { s@ }),
        Doc::Array(v) => r is Array && r->Array_0@.len() == v@.len() && forall|i: int|
            0 <= i < v@.len() ==> is_rewrite(v@[i], #[trigger] r->Array_0@[i], from, to),
        Doc::Object(v) => r is Object && r->Object_0@.len() == v@.len() && forall|i: int|
            0 <= i < v@.len() ==> (#[trigger] r->Object_0@[i]).0@ == v@[i].0@ && is_rewrite(
                v@[i].1,
                r->Object_0@[i].1,
                from,
                to,
            ),
    }
}

/// Some string leaf of `d` equals `s`.
pub open spec fn holds_string(d: Doc, s: Seq<char>) -> bool
    decreases d,
{
    match d {
        Doc::Str(t) => t@ == s,
        Doc::Array(v) => exists|i: int| 0 <= i < v@.len() && holds_string(#[trigger] v@[i], s),
        Doc::Object(v) => exists|i: int|
            0 <= i < v@.len() && holds_string(#[trigger] v@[i].1, s),
        _ => false,
    }
}

/// Replaces, everywhere in `v`, each string leaf equal to `path` by `npath`.
pub fn replace_path(v: Doc, path: &str, npath: &str) -> (r: Doc)
    ensures
        is_rewrite(v, r, path@, npath@),
    decreases v,
{
    match v {
        Doc::Object(entries) => {
            let ghost e0 = entries;
            let mut rest = entries;
            let mut out: Vec<(String, Doc)> = Vec::new();
            let n = rest.len();
            let mut i: usize = 0;
            while i < n
                invariant
                    i <= n == e0@.len(),
                    rest@ == e0@.subrange(i as int, n as int),
                    out@.len() == i,
                    v == Doc::Object(e0),
                    forall|j: int|
                        0 <= j < i ==> (#[trigger] out@[j]).0@ == e0@[j].0@ && is_rewrite(
                            e0@[j].1,
                            out@[j].1,
                            path@,
                            npath@,
                        ),
                decreases n - i,
            {
                let (k, d) = rest.remove(0);
                proof {
                    assert(decreases_to!(v => v->Object_0));
                    assert(decreases_to!(e0 => e0[i as int]));
                    assert(decreases_to!(e0[i as int] => e0[i as int].1));
                }
                let e = replace_path(d, path, npath);
                out.push((k, e));
                i = i + 1;
            }
            Doc::Object(out)
        },
        Doc::Array(items) => {
            let ghost e0 = items;
            let mut rest = items;
            let mut out: Vec<Doc> = Vec::new();
            let n = rest.len();
            let mut i: usize = 0;
            while i < n
                invariant
                    i <= n == e0@.len(),
                    rest@ == e0@.subrange(i as int, n as int),
                    out@.len() == i,
                    v == Doc::Array(e0),
                    forall|j: int| 0 <= j < i ==> is_rewrite(e0@[j], #[trigger] out@[j], path@, npath@),
                decreases n - i,
            {
                let d = rest.remove(0);
                proof {
                    assert(decreases_to!(v => v->Array_0));
                    assert(decreases_to!(e0 => e0[i as int]));
                }
                let e = replace_path(d, path, npath);
                out.push(e);
                i = i + 1;
            }
            Doc::Array(out)
        },
        Doc::Str(s) => {
            let p = String::from_str(path);
            if s == p {
                Doc::Str(String::from_str(npath))
            } else {
                Doc::Str(s)
            }
        },
        Doc::Null => Doc::Null,
        Doc::Bool(b) => Doc::Bool(b),
        Doc::Number(n) => Doc::Number(n),
    }
}

/// The reference a document makes to the variable at `path`: `$var:` then the path.
pub open spec fn var_ref(path: Seq<char>) -> Seq<char> {
    "$var:"@ + path
}

/// Rewriting `from` into a different `to` leaves no leaf equal to `from`,
/// and a document that held `from` now holds `to`.
pub proof fn lemma_rewrite_replaces(d: Doc, r: Doc, from: Seq<char>, to: Seq<char>)
    requires
        is_rewrite(d, r, from, to),
        from != to,
    ensures
        !holds_string(r, from),
        holds_string(d, from) ==> holds_string(r, to),
    decreases d,
{
    match d {
        Doc::Array(v) => {
            let w = r->Array_0;
            assert(w@.len() == v@.len());
            assert forall|i: int| 0 <= i < w@.len() implies !holds_string(#[trigger] w@[i], from) by {
                assert(decreases_to!(d => v));
                assert(decreases_to!(v => v[i]));
                lemma_rewrite_replaces(v@[i], w@[i], from, to);
            }
            if holds_string(d, from) {
                let i = choose|i: int| 0 <= i < v@.len() && holds_string(#[trigger] v@[i], from);
                assert(decreases_to!(d => v));
                assert(decreases_to!(v => v[i]));
                lemma_rewrite_replaces(v@[i], w@[i], from, to);
                assert(holds_string(w@[i], to));
            }
        },
        Doc::Object(v) => {
            let w = r->Object_0;
            assert(w@.len() == v@.len());
            assert forall|i: int| 0 <= i < w@.len() implies !holds_string(#[trigger] w@[i].1, from) by {
                assert(decreases_to!(d => v));
                assert(decreases_to!(v => v[i]));
                assert(decreases_to!(v[i] => v[i].1));
                lemma_rewrite_replaces(v@[i].1, w@[i].1, from, to);
            }
            if holds_string(d, from) {
                let i = choose|i: int| 0 <= i < v@.len() && holds_string(#[trigger] v@[i].1, from);
                assert(decreases_to!(d => v));
                assert(decreases_to!(v => v[i]));
                assert(decreases_to!(v[i] => v[i].1));
                lemma_rewrite_replaces(v@[i].1, w@[i].1, from, to);
                assert(holds_string(w@[i].1, to));
            }
        },
        _ => {},
    }
}

/// Rename propagation: once a document is rewritten from the reference to
/// `path` into the reference to another `npath`, it holds no reference to
/// `path`, and it refers to `npath` wherever it referred to `path`.
pub proof fn lemma_rename_propagation(d: Doc, r: Doc, path: Seq<char>, npath: Seq<char>)
    requires
        is_rewrite(d, r, var_ref(path), var_ref(npath)),
        path != npath,
    ensures
        !holds_string(r, var_ref(path)),
        holds_string(d, var_ref(path)) ==> holds_string(r, var_ref(npath)),
{
    reveal_strlit("$var:");
    assert(var_ref(path).subrange(5, var_ref(path).len() as int) =~= path);
    assert(var_ref(npath).subrange(5, var_ref(npath).len() as int) =~= npath);
    lemma_rewrite_replaces(d, r, var_ref(path), var_ref(npath));
}

} // verus!
