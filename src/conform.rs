use vstd::prelude::*;

use crate::error::ErrorKind;
use crate::schema::{AttrSpec, LogAttrs, LogTypes, Props};
use crate::strmap::{keys_distinct, lemma_map_of_at, lemma_map_of_contains, lemma_map_of_push, map_of};

verus! {

/// The value that an attribute takes when a record leaves it out (empty where it
/// has no default; such an attribute is then missing).
pub open spec fn default_value(a: AttrSpec) -> Seq<char> {
    match a.default {
        Some(d) => d,
        None => Seq::empty(),
    }
}

/// Each attribute of a type with its default value.
pub open spec fn defaults(attrs: Map<Seq<char>, AttrSpec>) -> Map<Seq<char>, Seq<char>> {
    attrs.map_values(|a: AttrSpec| default_value(a))
}

/// Attribute `k` of the type has no default and the properties do not supply it.
pub open spec fn is_missing(
    attrs: Map<Seq<char>, AttrSpec>,
    props: Map<Seq<char>, Seq<char>>,
    k: Seq<char>,
) -> bool {
    attrs.contains_key(k) && attrs[k].default is None && !props.contains_key(k)
}

/// Some attribute of the type is missing from the properties.
pub open spec fn has_missing(
    attrs: Map<Seq<char>, AttrSpec>,
    props: Map<Seq<char>, Seq<char>>,
) -> bool {
    exists|k: Seq<char>| is_missing(attrs, props, k)
}

/// The properties of a typed record: every attribute of the type with its
/// default, overridden by the supplied properties. Where `conform` holds, only
/// supplied properties that the type declares are kept; otherwise all are.
pub open spec fn conformed(
    attrs: Map<Seq<char>, AttrSpec>,
    props: Map<Seq<char>, Seq<char>>,
    conform: bool,
) -> Map<Seq<char>, Seq<char>> {
    if conform {
        defaults(attrs).union_prefer_right(props.restrict(attrs.dom()))
    } else {
        defaults(attrs).union_prefer_right(props)
    }
}

/// With `conform`, a resolved record holds no key that its type does not
/// declare; without it, the resolved record holds every supplied property with
/// the supplied value.
pub proof fn law_conform_shapes_keys(
    attrs: Map<Seq<char>, AttrSpec>,
    props: Map<Seq<char>, Seq<char>>,
)
    ensures
        conformed(attrs, props, true).dom().subset_of(attrs.dom()),
        forall|k: Seq<char>|
            #[trigger] props.contains_key(k) ==> conformed(attrs, props, false).contains_key(k)
                && conformed(attrs, props, false)[k] == props[k],
{
}

/// An attribute without a default that the properties leave out makes the
/// resolution fail, whether or not `conform` holds.
pub proof fn law_missing_attribute_fails(
    attrs: Map<Seq<char>, AttrSpec>,
    props: Map<Seq<char>, Seq<char>>,
    k: Seq<char>,
)
    requires
        attrs.contains_key(k),
        attrs[k].default is None,
        !props.contains_key(k),
    ensures
        has_missing(attrs, props),
{
    assert(is_missing(attrs, props, k));
}

/// The set of keys of the first `n` pairs of a list.
pub open spec fn prefix_keys<V>(s: Seq<(String, V)>, n: int) -> Set<Seq<char>> {
    Set::new(|k: Seq<char>| exists|j: int| 0 <= j < n && s[j].0@ == k)
}

/// Resolves the properties of a record against a registered log type.
///
/// Without a type the properties pass through unchanged. With one, the type must
/// be registered; each of its attributes takes the supplied value or else its
/// default, and an attribute with neither is reported missing. Supplied
/// properties that the type does not declare are dropped where `conform` holds
/// and kept otherwise.
pub fn resolve_props(types: &LogTypes, typ: &Option<String>, props: &Props, conform: bool) -> (r:
    Result<Props, ErrorKind>)
    ensures
        match typ {
            None => r matches Ok(m) && m@ == props@,
            Some(t) => if !types@.contains_key(t@) {
                r == Err::<Props, ErrorKind>(ErrorKind::InvalidLogType(*t))
            } else if has_missing(types@[t@], props@) {
                r matches Err(ErrorKind::MissingField { typ, field }) && typ@ == t@
                    && is_missing(types@[t@], props@, field@)
            } else {
                r matches Ok(m) && m@ == conformed(types@[t@], props@, conform)
            },
        },
{
    match typ {
        None => Ok(props.deep_copy_map()),
        Some(t) => match types.get(t) {
            None => Err(ErrorKind::InvalidLogType(t.clone())),
            Some(attrs) => {
                let resolved = resolve_with_attrs(attrs, props, conform);
                match resolved {
                    Ok(m) => Ok(m),
                    Err(field) => Err(ErrorKind::MissingField { typ: t.clone(), field }),
                }
            },
        },
    }
}

/// Resolves the properties against the attributes of one type; the error is the
/// name of a missing attribute.
fn resolve_with_attrs(attrs: &LogAttrs, props: &Props, conform: bool) -> (r: Result<
    Props,
    String,
>)
    ensures
        match r {
            Ok(m) => !has_missing(attrs@, props@) && m@ == conformed(attrs@, props@, conform),
            Err(field) => is_missing(attrs@, props@, field@),
        },
{
    let ghost target = conformed(attrs@, props@, true);
    let n = attrs.len();
    let mut out: Props = Props::new();
    let mut i: usize = 0;
    while i < n
        invariant
            n == attrs.pairs().len(),
            keys_distinct(attrs.pairs()),
            attrs@ == map_of(attrs.pairs()),
            target == conformed(attrs@, props@, true),
            i <= n,
            out@ == target.restrict(prefix_keys(attrs.pairs(), i as int)),
            forall|j: int| 0 <= j < i ==> !is_missing(attrs@, props@, #[trigger] attrs.pairs()[j].0@),
        decreases n - i,
    {
        let k = attrs.key_at(i);
        let a = attrs.value_at(i);
        proof {
            lemma_map_of_at(attrs.pairs(), i as int);
        }
        let v = match props.get(k) {
            Some(v) => v.clone(),
            None => match &a.default {
                Some(d) => d.clone(),
                None => {
                    return Err(k.clone());
                },
            },
        };
        out.insert(k.clone(), v);
        proof {
            assert(target[k@] == v@);
            assert(out@ =~= target.restrict(prefix_keys(attrs.pairs(), i + 1))) by {
                assert forall|x: Seq<char>|
                    prefix_keys(attrs.pairs(), i + 1).contains(x) implies prefix_keys(
                    attrs.pairs(),
                    i as int,
                ).contains(x) || x == k@ by {
                    let j = choose|j: int| 0 <= j < i + 1 && attrs.pairs()[j].0@ == x;
                    if j < i {
                        assert(prefix_keys(attrs.pairs(), i as int).contains(x));
                    }
                }
                assert(prefix_keys(attrs.pairs(), i + 1).contains(k@));
                assert forall|x: Seq<char>|
                    prefix_keys(attrs.pairs(), i as int).contains(x) implies prefix_keys(
                    attrs.pairs(),
                    i + 1,
                ).contains(x) by {
                    let j = choose|j: int| 0 <= j < i && attrs.pairs()[j].0@ == x;
                    assert(0 <= j < i + 1 && attrs.pairs()[j].0@ == x);
                }
            }
        }
        i = i + 1;
    }
    proof {
        assert forall|k: Seq<char>| !is_missing(attrs@, props@, k) by {
            lemma_map_of_contains(attrs.pairs(), k);
            if attrs@.contains_key(k) {
                let j = choose|j: int| 0 <= j < n && attrs.pairs()[j].0@ == k;
                assert(!is_missing(attrs@, props@, attrs.pairs()[j].0@));
            }
        }
        assert(prefix_keys(attrs.pairs(), n as int) =~= target.dom()) by {
            assert forall|k: Seq<char>| #[trigger] target.dom().contains(k) implies prefix_keys(
                attrs.pairs(),
                n as int,
            ).contains(k) by {
                lemma_map_of_contains(attrs.pairs(), k);
            }
            assert forall|k: Seq<char>|
                #[trigger] prefix_keys(attrs.pairs(), n as int).contains(k) implies target.dom().contains(
                k,
            ) by {
                lemma_map_of_contains(attrs.pairs(), k);
            }
        }
        assert(out@ =~= target);
    }
    if !conform {
        let m = props.len();
        let mut j: usize = 0;
        while j < m
            invariant
                m == props.pairs().len(),
                props@ == map_of(props.pairs()),
                j <= m,
                out@ == target.union_prefer_right(map_of(props.pairs().take(j as int))),
            decreases m - j,
        {
            let k = props.key_at(j).clone();
            let v = props.value_at(j).clone();
            proof {
                assert(props.pairs().take(j + 1) =~= props.pairs().take(j as int).push(
                    props.pairs()[j as int],
                ));
                lemma_map_of_push(props.pairs().take(j as int), props.pairs()[j as int]);
            }
            out.insert(k, v);
            assert(out@ =~= target.union_prefer_right(map_of(props.pairs().take(j + 1))));
            j = j + 1;
        }
        proof {
            assert(props.pairs().take(m as int) =~= props.pairs());
            assert(out@ =~= conformed(attrs@, props@, false));
        }
    }
    Ok(out)
}

} // verus!
