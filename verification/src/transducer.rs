//! Early termination of reductions: a reduced value is a map that marks
//! its `:value` with a `:type` of `:reduced`. The keys are keywords whose
//! names keep the leading colon (`":type"`, `":value"`), and so does the
//! marker (`":reduced"`); the check compares the marker's name with
//! `"reduced"`.

use crate::key::KeyView;
use crate::map_ops::{clorus_map_assoc, clorus_map_empty, clorus_map_get, is_map_of, map_view};
use crate::value::Value;
use vstd::prelude::*;

verus! {

/// `(reduced v)`: a map with `:type` to `:reduced` and `:value` to `v`.
pub fn clorus_reduced(v: Value) -> (r: Value)
    ensures
        is_map_of(
            r,
            Map::<KeyView, Value>::empty().insert(KeyView::Keyword(":type"@), map_view(r)[KeyView::Keyword(":type"@)]).insert(
                KeyView::Keyword(":value"@),
                v,
            ),
        ),
        is_keyword_named(map_view(r)[KeyView::Keyword(":type"@)], ":reduced"@),
{
    let ty = Value::Keyword(crate::text::string_from(":type"));
    let marker = Value::Keyword(crate::text::string_from(":reduced"));
    let m = clorus_map_assoc(&clorus_map_empty(), &ty, marker);
    let val_key = Value::Keyword(crate::text::string_from(":value"));
    let r = clorus_map_assoc(&m, &val_key, v);
    proof {
        reveal_strlit(":type");
        reveal_strlit(":value");
        reveal_strlit(":reduced");
        assert(KeyView::Keyword(":type"@) != KeyView::Keyword(":value"@)) by {
            assert(":type"@[1] != ":value"@[1]);
        }
        assert(map_view(r) =~= Map::<KeyView, Value>::empty().insert(KeyView::Keyword(":type"@), map_view(r)[KeyView::Keyword(":type"@)]).insert(
            KeyView::Keyword(":value"@),
            v,
        ));
    }
    r
}

/// Whether a value is a map whose `:type` is a keyword named `reduced`.
pub open spec fn spec_is_reduced(v: Value) -> bool {
    v is HashMap && map_view(v).contains_key(KeyView::Keyword(":type"@)) && is_keyword_named(
        map_view(v)[KeyView::Keyword(":type"@)],
        "reduced"@,
    )
}

/// A keyword value with the given name.
pub open spec fn is_keyword_named(v: Value, name: Seq<char>) -> bool {
    v matches Value::Keyword(k) && k@ == name
}

/// `(reduced? v)` as the runtime checks it (see [`spec_is_reduced`]).
pub fn clorus_is_reduced(v: &Value) -> (r: bool)
    ensures
        r == spec_is_reduced(*v),
{
    match v {
        Value::HashMap(_) => {
            let ty = Value::Keyword(crate::text::string_from(":type"));
            let t = clorus_map_get(v, &ty);
            proof {
                reveal_strlit(":type");
            }
            match t {
                Value::Keyword(k) => crate::text::same_text(k.as_str(), "reduced"),
                _ => false,
            }
        },
        _ => false,
    }
}

/// `@reduced`: the `:value` entry of a map; nil when there is none.
pub fn clorus_deref_reduced(v: &Value) -> (r: Value)
    ensures
        r == if v is HashMap && map_view(*v).contains_key(KeyView::Keyword(":value"@)) {
            map_view(*v)[KeyView::Keyword(":value"@)]
        } else {
            Value::Nil
        },
{
    let key = Value::Keyword(crate::text::string_from(":value"));
    proof {
        reveal_strlit(":value");
    }
    clorus_map_get(v, &key)
}

/// `(ensure-reduced v)`: `v` when it counts as reduced, else `(reduced v)`.
pub fn clorus_ensure_reduced(v: Value) -> (r: Value)
    ensures
        spec_is_reduced(v) ==> r == v,
        !spec_is_reduced(v) ==> map_view(r)[KeyView::Keyword(":value"@)] == v && r is HashMap,
{
    if clorus_is_reduced(&v) {
        v
    } else {
        let ghost vv = v;
        let r = clorus_reduced(v);
        proof {
            assert(map_view(r).contains_key(KeyView::Keyword(":value"@)));
        }
        r
    }
}

} // verus!
