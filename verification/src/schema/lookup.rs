//! Which definition of a spec is that of a resource.

use vstd::prelude::*;
use vstd::string::*;

use crate::discovery::{ResolvedResource, ResolvedView};
use crate::schema::error::{SchemaError, SchemaErrorView};
use crate::text::{contains, ends_with, lowercase, occurs, texts, to_lowercase};

verus! {

/// A way to recognise the key of a definition.
pub enum Strategy {
    /// It ends with the group, the version and the kind, with a dot before each, in any case. No dot
    /// stands before the group where the key begins with it.
    InGroup,
    /// It ends with the version and the kind, with a dot before each, in any case.
    Qualified,
    /// It ends with the version, a dot and the kind.
    Versioned,
    /// It ends with the kind and has the group in it, in any case.
    Grouped,
    /// It ends with the kind.
    Kind,
}

/// Whether a key is that of a resource, by a strategy.
pub open spec fn fits(strategy: Strategy, key: Seq<char>, r: ResolvedView) -> bool {
    match strategy {
        Strategy::InGroup => r.group.len() > 0 && ("."@ + lowercase(r.group) + "."@ + lowercase(
            r.version,
        ) + "."@ + lowercase(r.kind)).is_suffix_of("."@ + lowercase(key)),
        Strategy::Qualified => ("."@ + lowercase(r.version) + "."@ + lowercase(
            r.kind,
        )).is_suffix_of(lowercase(key)),
        Strategy::Versioned => (r.version + "."@ + r.kind).is_suffix_of(key),
        Strategy::Grouped => r.kind.is_suffix_of(key) && (r.group.len() == 0 || occurs(
            lowercase(key),
            lowercase(r.group),
        )),
        Strategy::Kind => r.kind.is_suffix_of(key),
    }
}

/// The first key that fits by a strategy.
pub open spec fn first_fit(strategy: Strategy, keys: Seq<Seq<char>>, r: ResolvedView) -> Option<
    Seq<char>,
>
    decreases keys.len(),
{
    if keys.len() == 0 {
        None
    } else if fits(strategy, keys[0], r) {
        Some(keys[0])
    } else {
        first_fit(strategy, keys.drop_first(), r)
    }
}

/// The key of the definition of a resource: the first that fits by the first strategy by which one
/// fits.
pub open spec fn definition_key(keys: Seq<Seq<char>>, r: ResolvedView) -> Option<Seq<char>> {
    match first_fit(Strategy::InGroup, keys, r) {
        Some(key) => Some(key),
        None => match first_fit(Strategy::Qualified, keys, r) {
            Some(key) => Some(key),
            None => match first_fit(Strategy::Versioned, keys, r) {
                Some(key) => Some(key),
                None => match first_fit(Strategy::Grouped, keys, r) {
                    Some(key) => Some(key),
                    None => first_fit(Strategy::Kind, keys, r),
                },
            },
        },
    }
}

/// The error for a resource that no key is that of.
pub open spec fn no_key(r: ResolvedView) -> SchemaErrorView {
    SchemaErrorView::NoKey { group: r.group, version: r.version, kind: r.kind }
}

fn is_fit(strategy: &Strategy, key: &str, r: &ResolvedResource) -> (b: bool)
    ensures
        b == fits(*strategy, key@, r@),
{
    let kind: &str = r.api_resource.kind.as_str();
    match strategy {
        Strategy::InGroup => {
            if r.group.as_str().unicode_len() == 0 {
                return false;
            }
            let mut suffix: String = ".".to_owned();
            suffix.append(to_lowercase(r.group.as_str()).as_str());
            suffix.append(".");
            suffix.append(to_lowercase(r.version.as_str()).as_str());
            suffix.append(".");
            suffix.append(to_lowercase(kind).as_str());
            let mut dotted: String = ".".to_owned();
            dotted.append(to_lowercase(key).as_str());
            ends_with(dotted.as_str(), suffix.as_str())
        },
        Strategy::Qualified => {
            let mut suffix: String = ".".to_owned();
            suffix.append(to_lowercase(r.version.as_str()).as_str());
            suffix.append(".");
            suffix.append(to_lowercase(kind).as_str());
            ends_with(to_lowercase(key).as_str(), suffix.as_str())
        },
        Strategy::Versioned => {
            let mut suffix: String = r.version.clone();
            suffix.append(".");
            suffix.append(kind);
            ends_with(key, suffix.as_str())
        },
        Strategy::Grouped => ends_with(key, kind) && (r.group.as_str().unicode_len() == 0
            || contains(to_lowercase(key).as_str(), to_lowercase(r.group.as_str()).as_str())),
        Strategy::Kind => ends_with(key, kind),
    }
}

fn first_key(strategy: Strategy, candidates: &[String], r: &ResolvedResource) -> (key: Option<
    String,
>)
    ensures
        match key {
            Some(k) => first_fit(strategy, texts(candidates@), r@) == Some(k@),
            None => first_fit(strategy, texts(candidates@), r@) is None,
        },
{
    let ghost all = texts(candidates@);
    let mut i: usize = 0;
    proof {
        assert(all.skip(0) =~= all);
    }
    while i < candidates.len()
        invariant
            i <= candidates@.len(),
            all == texts(candidates@),
            first_fit(strategy, all, r@) == first_fit(strategy, all.skip(i as int), r@),
        decreases candidates@.len() - i,
    {
        proof {
            assert(all.skip(i as int)[0] == candidates@[i as int]@);
            assert(all.skip(i as int).drop_first() =~= all.skip(i + 1));
        }
        if is_fit(&strategy, candidates[i].as_str(), r) {
            return Some(candidates[i].clone());
        }
        i = i + 1;
    }
    None
}

/// The key of the definition of a resource, among the keys of a spec.
pub fn find_definition_key(candidates: &[String], resolved: &ResolvedResource) -> (r: Result<
    String,
    SchemaError,
>)
    ensures
        match r {
            Ok(key) => definition_key(texts(candidates@), resolved@) == Some(key@),
            Err(e) => {
                &&& definition_key(texts(candidates@), resolved@) is None
                &&& e@ == no_key(resolved@)
            },
        },
{
    if let Some(key) = first_key(Strategy::InGroup, candidates, resolved) {
        return Ok(key);
    }
    if let Some(key) = first_key(Strategy::Qualified, candidates, resolved) {
        return Ok(key);
    }
    if let Some(key) = first_key(Strategy::Versioned, candidates, resolved) {
        return Ok(key);
    }
    if let Some(key) = first_key(Strategy::Grouped, candidates, resolved) {
        return Ok(key);
    }
    if let Some(key) = first_key(Strategy::Kind, candidates, resolved) {
        return Ok(key);
    }
    Err(
        SchemaError::NoKey {
            group: resolved.group.clone(),
            version: resolved.version.clone(),
            kind: resolved.api_resource.kind.clone(),
        },
    )
}

proof fn lemma_first_fit(strategy: Strategy, keys: Seq<Seq<char>>, r: ResolvedView)
    ensures
        match first_fit(strategy, keys, r) {
            Some(key) => keys.contains(key) && fits(strategy, key, r),
            None => forall|i: int| 0 <= i < keys.len() ==> !fits(strategy, #[trigger] keys[i], r),
        },
    decreases keys.len(),
{
    if keys.len() > 0 {
        let rest = keys.drop_first();
        lemma_first_fit(strategy, rest, r);
        if fits(strategy, keys[0], r) {
            assert(keys.contains(keys[0]));
        } else {
            match first_fit(strategy, rest, r) {
                Some(key) => {
                    let i = choose|i: int| 0 <= i < rest.len() && rest[i] == key;
                    assert(keys[i + 1] == key);
                },
                None => {
                    assert forall|i: int| 0 <= i < keys.len() implies !fits(
                        strategy,
                        #[trigger] keys[i],
                        r,
                    ) by {
                        if i > 0 {
                            assert(rest[i - 1] == keys[i]);
                        }
                    }
                },
            }
        }
    }
}

proof fn lemma_in_group_is_qualified(key: Seq<char>, r: ResolvedView)
    requires
        fits(Strategy::InGroup, key, r),
    ensures
        fits(Strategy::Qualified, key, r),
{
    reveal_strlit(".");
    let lower = lowercase(key);
    let dotted = "."@ + lower;
    let short = "."@ + lowercase(r.version) + "."@ + lowercase(r.kind);
    let long = "."@ + lowercase(r.group) + "."@ + lowercase(r.version) + "."@ + lowercase(r.kind);
    assert(long =~= dotted.subrange(dotted.len() - long.len(), dotted.len() as int));
    assert(short =~= long.subrange(long.len() - short.len(), long.len() as int));
    assert(short =~= lower.subrange(lower.len() - short.len(), lower.len() as int));
}

/// Where some key names the group of a resource before the version and the kind, the definition that
/// is found has such a key: one of another group is not taken.
pub proof fn lemma_group_decides(keys: Seq<Seq<char>>, r: ResolvedView)
    requires
        exists|i: int| 0 <= i < keys.len() && fits(Strategy::InGroup, #[trigger] keys[i], r),
    ensures
        definition_key(keys, r) matches Some(key) && keys.contains(key) && fits(
            Strategy::InGroup,
            key,
            r,
        ),
{
    lemma_first_fit(Strategy::InGroup, keys, r);
}

/// A definition is found if and only if some key ends with the kind, or with the version and the
/// kind in any case; and what is found is one of the keys.
pub proof fn lemma_definition_key(keys: Seq<Seq<char>>, r: ResolvedView)
    ensures
        definition_key(keys, r) matches Some(key) ==> keys.contains(key),
        definition_key(keys, r) is Some <==> exists|i: int|
            0 <= i < keys.len() && (fits(Strategy::Kind, #[trigger] keys[i], r) || fits(
                Strategy::Qualified,
                keys[i],
                r,
            )),
{
    lemma_first_fit(Strategy::InGroup, keys, r);
    lemma_first_fit(Strategy::Qualified, keys, r);
    lemma_first_fit(Strategy::Versioned, keys, r);
    lemma_first_fit(Strategy::Grouped, keys, r);
    lemma_first_fit(Strategy::Kind, keys, r);
    assert forall|i: int|
        0 <= i < keys.len() && fits(
            Strategy::InGroup,
            #[trigger] keys[i],
            r,
        ) implies fits(Strategy::Qualified, keys[i], r) by {
        lemma_in_group_is_qualified(keys[i], r);
    }
    assert forall|i: int|
        0 <= i < keys.len() && fits(
            Strategy::Versioned,
            #[trigger] keys[i],
            r,
        ) implies fits(Strategy::Kind, keys[i], r) by {
        let long = r.version + "."@ + r.kind;
        let key = keys[i];
        assert(r.kind =~= long.subrange(long.len() - r.kind.len(), long.len() as int));
        assert(r.kind =~= key.subrange(key.len() - r.kind.len(), key.len() as int));
    }
}

}
