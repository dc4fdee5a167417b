//! The claims mapper: turns named claim values delivered by the identity
//! provider into a flat, ordered list of role strings, reporting every
//! value it had to skip.

use crate::config::CustomAppOidcConfig;
use crate::text::{chars_to_string, split_chars, split_spec, str_to_chars, str_views, views_of};
use vstd::prelude::*;

verus! {

/// A claim value as delivered by the identity provider: a single string, an
/// array of values, or any other JSON shape.
pub enum ClaimValue {
    Text(String),
    List(Vec<ClaimValue>),
    Other,
}

/// The non-standard claims of an ID token or of a UserInfo response, keyed
/// by claim name; on a repeated name the first entry wins.
pub struct AllOtherClaims(pub Vec<(String, ClaimValue)>);

/// A claim the mapper had to skip, and why; the service reports each in its
/// log without aborting the login.
pub enum ClaimAnomaly {
    /// No claim was found under the requested name.
    Missing(String),
    /// An array-valued claim held an element that is not a string.
    ListEntryNotText(String),
    /// The claim value is neither a string nor an array.
    NotTextual(String),
}

/// The value bound to `name`, first binding first.
pub open spec fn assoc_spec<V>(entries: Seq<(String, V)>, name: Seq<char>) -> Option<V>
    decreases entries.len(),
{
    if entries.len() == 0 {
        None
    } else if entries[0].0@ == name {
        Some(entries[0].1)
    } else {
        assoc_spec(entries.skip(1), name)
    }
}

/// If no binding among the first `i` entries matches, the lookup is decided
/// by the remaining entries.
proof fn lemma_assoc_skip<V>(entries: Seq<(String, V)>, name: Seq<char>, i: int)
    requires
        0 <= i <= entries.len(),
        forall|j: int| 0 <= j < i ==> (#[trigger] entries[j].0)@ != name,
    ensures
        assoc_spec(entries, name) == assoc_spec(entries.skip(i), name),
    decreases i,
{
    if i == 0 {
        assert(entries.skip(0) =~= entries);
    } else {
        assert(entries[0].0@ != name);
        assert forall|j: int| 0 <= j < i - 1 implies (#[trigger] entries.skip(1)[j].0)@
            != name by {
            assert(entries.skip(1)[j] == entries[j + 1]);
        }
        lemma_assoc_skip(entries.skip(1), name, i - 1);
        assert(entries.skip(1).skip(i - 1) =~= entries.skip(i));
    }
}

/// Looks `name` up among the entries, first binding first.
fn assoc_find<'a, V>(entries: &'a Vec<(String, V)>, name: &String) -> (r: Option<&'a V>)
    ensures
        match r {
            Some(v) => assoc_spec(entries@, name@) == Some(*v),
            None => assoc_spec(entries@, name@) is None,
        },
{
    let mut i: usize = 0;
    while i < entries.len()
        invariant
            i <= entries@.len(),
            forall|j: int| 0 <= j < i ==> (#[trigger] entries@[j].0)@ != name@,
        decreases entries@.len() - i,
    {
        if entries[i].0 == *name {
            proof {
                lemma_assoc_skip(entries@, name@, i as int);
                assert(entries@.skip(i as int)[0] == entries@[i as int]);
            }
            return Some(&entries[i].1);
        }
        i = i + 1;
    }
    proof {
        lemma_assoc_skip(entries@, name@, entries@.len() as int);
    }
    None
}

/// The separator configured for `name`, if any.
pub open spec fn sep_spec(seps: Option<Vec<(String, String)>>, name: Seq<char>) -> Option<
    Seq<char>,
> {
    match seps {
        None => None,
        Some(tab) => match assoc_spec(tab@, name) {
            None => None,
            Some(s) => Some(s@),
        },
    }
}

/// The role strings contributed by the string elements of an array claim, in
/// array order.
pub open spec fn texts_of_list(items: Seq<ClaimValue>) -> Seq<Seq<char>>
    decreases items.len(),
{
    if items.len() == 0 {
        Seq::<Seq<char>>::empty()
    } else {
        let rest = texts_of_list(items.skip(1));
        match items[0] {
            ClaimValue::Text(s) => seq![s@] + rest,
            _ => rest,
        }
    }
}

/// One anomaly for each non-string element of an array claim.
pub open spec fn list_anomalies(name: String, items: Seq<ClaimValue>) -> Seq<ClaimAnomaly>
    decreases items.len(),
{
    if items.len() == 0 {
        Seq::<ClaimAnomaly>::empty()
    } else {
        let rest = list_anomalies(name, items.skip(1));
        match items[0] {
            ClaimValue::Text(_) => rest,
            _ => seq![ClaimAnomaly::ListEntryNotText(name)] + rest,
        }
    }
}

/// The roles one claim value yields: a string is split by the configured
/// separator (the whole string is one role when none is configured), an
/// array contributes its string elements, anything else contributes nothing.
pub open spec fn roles_of_value(v: ClaimValue, sep: Option<Seq<char>>) -> Seq<Seq<char>> {
    match v {
        ClaimValue::Text(s) => match sep {
            Some(sp) => split_spec(s@, sp),
            None => seq![s@],
        },
        ClaimValue::List(items) => texts_of_list(items@),
        ClaimValue::Other => Seq::<Seq<char>>::empty(),
    }
}

/// The anomalies one claim value yields.
pub open spec fn anomalies_of_value(name: String, v: ClaimValue) -> Seq<ClaimAnomaly> {
    match v {
        ClaimValue::Text(_) => Seq::<ClaimAnomaly>::empty(),
        ClaimValue::List(items) => list_anomalies(name, items@),
        ClaimValue::Other => seq![ClaimAnomaly::NotTextual(name)],
    }
}

/// The roles mapped from the requested claims, requested order first, value
/// order within each claim.
pub open spec fn mapped_roles_spec(
    entries: Seq<(String, ClaimValue)>,
    names: Seq<String>,
    seps: Option<Vec<(String, String)>>,
) -> Seq<Seq<char>>
    decreases names.len(),
{
    if names.len() == 0 {
        Seq::<Seq<char>>::empty()
    } else {
        let head = match assoc_spec(entries, names[0]@) {
            None => Seq::<Seq<char>>::empty(),
            Some(v) => roles_of_value(v, sep_spec(seps, names[0]@)),
        };
        head + mapped_roles_spec(entries, names.skip(1), seps)
    }
}

/// The anomalies met while mapping the requested claims, in the same order.
pub open spec fn anomalies_spec(
    entries: Seq<(String, ClaimValue)>,
    names: Seq<String>,
) -> Seq<ClaimAnomaly>
    decreases names.len(),
{
    if names.len() == 0 {
        Seq::<ClaimAnomaly>::empty()
    } else {
        let head = match assoc_spec(entries, names[0]@) {
            None => seq![ClaimAnomaly::Missing(names[0])],
            Some(v) => anomalies_of_value(names[0], v),
        };
        head + anomalies_spec(entries, names.skip(1))
    }
}

/// Appends the roles and anomalies of one claim value.
fn extend_from_value(
    v: &ClaimValue,
    sep: Option<&String>,
    name: &String,
    roles: &mut Vec<String>,
    anomalies: &mut Vec<ClaimAnomaly>,
)
    ensures
        str_views(final(roles)@) == str_views(old(roles)@) + roles_of_value(
            *v,
            match sep {
                Some(s) => Some(s@),
                None => None,
            },
        ),
        final(anomalies)@ == old(anomalies)@ + anomalies_of_value(*name, *v),
{
    match v {
        ClaimValue::Text(s) => {
            match sep {
                Some(sp) => {
                    let schars = str_to_chars(s.as_str());
                    let sepchars = str_to_chars(sp.as_str());
                    let pieces = split_chars(&schars, &sepchars);
                    let ghost want = split_spec(s@, sp@);
                    let mut j: usize = 0;
                    while j < pieces.len()
                        invariant
                            j <= pieces@.len(),
                            views_of(pieces@) == want,
                            str_views(roles@) == str_views(old(roles)@) + want.subrange(
                                0,
                                j as int,
                            ),
                        decreases pieces@.len() - j,
                    {
                        let ghost prev = roles@;
                        let piece = chars_to_string(&pieces[j]);
                        roles.push(piece);
                        proof {
                            assert(piece@ == want[j as int]) by {
                                assert(views_of(pieces@)[j as int] == pieces@[j as int]@);
                            }
                            assert(str_views(roles@) =~= str_views(prev).push(want[j as int]));
                            assert(want.subrange(0, j + 1) =~= want.subrange(0, j as int).push(
                                want[j as int],
                            ));
                            assert(str_views(prev).push(want[j as int]) =~= str_views(old(roles)@)
                                + want.subrange(0, j + 1));
                        }
                        j = j + 1;
                    }
                    proof {
                        assert(want.subrange(0, want.len() as int) =~= want);
                        assert(anomalies@ =~= old(anomalies)@ + Seq::<ClaimAnomaly>::empty());
                    }
                },
                None => {
                    roles.push(s.clone());
                    proof {
                        assert(str_views(roles@) =~= str_views(old(roles)@) + seq![s@]);
                        assert(anomalies@ =~= old(anomalies)@ + Seq::<ClaimAnomaly>::empty());
                    }
                },
            }
        },
        ClaimValue::List(items) => {
            let ghost all = items@;
            let mut j: usize = 0;
            proof {
                assert(all.skip(0) =~= all);
            }
            while j < items.len()
                invariant
                    j <= all.len(),
                    all == items@,
                    str_views(roles@) + texts_of_list(all.skip(j as int)) == str_views(
                        old(roles)@,
                    ) + texts_of_list(all),
                    anomalies@ + list_anomalies(*name, all.skip(j as int)) == old(anomalies)@
                        + list_anomalies(*name, all),
                decreases all.len() - j,
            {
                let ghost t = all.skip(j as int);
                proof {
                    assert(t[0] == all[j as int]);
                    assert(t.skip(1) =~= all.skip(j + 1));
                }
                match &items[j] {
                    ClaimValue::Text(s) => {
                        roles.push(s.clone());
                        proof {
                            assert(str_views(roles@) =~= str_views(roles@.drop_last()) + seq![s@]);
                            assert(texts_of_list(t) == seq![s@] + texts_of_list(all.skip(j + 1)));
                            assert(str_views(roles@.drop_last()) + (seq![s@] + texts_of_list(
                                all.skip(j + 1),
                            )) =~= (str_views(roles@.drop_last()) + seq![s@]) + texts_of_list(
                                all.skip(j + 1),
                            ));
                        }
                    },
                    ClaimValue::List(_) => {
                        anomalies.push(ClaimAnomaly::ListEntryNotText(name.clone()));
                        proof {
                            assert(list_anomalies(*name, t) == seq![ClaimAnomaly::ListEntryNotText(
                                *name,
                            )] + list_anomalies(*name, all.skip(j + 1)));
                            assert(anomalies@.drop_last() + (seq![ClaimAnomaly::ListEntryNotText(
                                *name,
                            )] + list_anomalies(*name, all.skip(j + 1))) =~= anomalies@
                                + list_anomalies(*name, all.skip(j + 1)));
                        }
                    },
                    ClaimValue::Other => {
                        anomalies.push(ClaimAnomaly::ListEntryNotText(name.clone()));
                        proof {
                            assert(list_anomalies(*name, t) == seq![ClaimAnomaly::ListEntryNotText(
                                *name,
                            )] + list_anomalies(*name, all.skip(j + 1)));
                            assert(anomalies@.drop_last() + (seq![ClaimAnomaly::ListEntryNotText(
                                *name,
                            )] + list_anomalies(*name, all.skip(j + 1))) =~= anomalies@
                                + list_anomalies(*name, all.skip(j + 1)));
                        }
                    },
                }
                j = j + 1;
            }
            proof {
                let empty_tail = all.skip(all.len() as int);
                assert(empty_tail.len() == 0);
                assert(texts_of_list(empty_tail) =~= Seq::<Seq<char>>::empty());
                assert(list_anomalies(*name, empty_tail) =~= Seq::<ClaimAnomaly>::empty());
                assert(str_views(roles@) =~= str_views(roles@) + texts_of_list(empty_tail));
                assert(anomalies@ =~= anomalies@ + list_anomalies(*name, empty_tail));
            }
        },
        ClaimValue::Other => {
            anomalies.push(ClaimAnomaly::NotTextual(name.clone()));
            proof {
                assert(str_views(roles@) =~= str_views(old(roles)@) + Seq::<Seq<char>>::empty());
                assert(anomalies@ =~= old(anomalies)@ + seq![ClaimAnomaly::NotTextual(*name)]);
            }
        },
    }
}

/// Maps the requested claims onto roles and reports every skipped value.
pub fn parse_claims_with_log(
    claims: &AllOtherClaims,
    claims_to_extract: &Vec<String>,
    oidc_config: &CustomAppOidcConfig,
) -> (r: (Vec<String>, Vec<ClaimAnomaly>))
    ensures
        str_views(r.0@) == mapped_roles_spec(
            claims.0@,
            claims_to_extract@,
            oidc_config.claims_separator,
        ),
        r.1@ == anomalies_spec(claims.0@, claims_to_extract@),
{
    let ghost entries = claims.0@;
    let ghost names = claims_to_extract@;
    let ghost seps = oidc_config.claims_separator;
    let mut roles: Vec<String> = Vec::new();
    let mut anomalies: Vec<ClaimAnomaly> = Vec::new();
    let mut i: usize = 0;
    proof {
        assert(names.skip(0) =~= names);
        assert(str_views(roles@) =~= Seq::<Seq<char>>::empty());
    }
    while i < claims_to_extract.len()
        invariant
            i <= names.len(),
            entries == claims.0@,
            names == claims_to_extract@,
            seps == oidc_config.claims_separator,
            str_views(roles@) + mapped_roles_spec(entries, names.skip(i as int), seps)
                == mapped_roles_spec(entries, names, seps),
            anomalies@ + anomalies_spec(entries, names.skip(i as int)) == anomalies_spec(
                entries,
                names,
            ),
        decreases names.len() - i,
    {
        let name = &claims_to_extract[i];
        let ghost t = names.skip(i as int);
        proof {
            assert(t[0] == names[i as int]);
            assert(t.skip(1) =~= names.skip(i + 1));
        }
        let ghost roles_before = roles@;
        let ghost anomalies_before = anomalies@;
        match assoc_find(&claims.0, name) {
            Some(v) => {
                let sep = match &oidc_config.claims_separator {
                    Some(tab) => assoc_find(tab, name),
                    None => None,
                };
                proof {
                    match sep {
                        Some(sp) => {
                            assert(sep_spec(seps, t[0]@) == Some(sp@));
                        },
                        None => {
                            assert(sep_spec(seps, t[0]@) is None);
                        },
                    }
                }
                extend_from_value(v, sep, name, &mut roles, &mut anomalies);
            },
            None => {
                anomalies.push(ClaimAnomaly::Missing(name.clone()));
                proof {
                    assert(str_views(roles@) =~= str_views(roles_before) + Seq::<
                        Seq<char>,
                    >::empty());
                    assert(anomalies@ =~= anomalies_before + seq![ClaimAnomaly::Missing(
                        names[i as int],
                    )]);
                }
            },
        }
        proof {
            let t_next = names.skip(i + 1);
            assert(mapped_roles_spec(entries, t.skip(1), seps) == mapped_roles_spec(
                entries,
                t_next,
                seps,
            ));
            assert(anomalies_spec(entries, t.skip(1)) == anomalies_spec(entries, t_next));
            assert(str_views(roles@) + mapped_roles_spec(entries, t_next, seps) =~= str_views(
                roles_before,
            ) + mapped_roles_spec(entries, t, seps));
            assert(anomalies@ + anomalies_spec(entries, t_next) =~= anomalies_before
                + anomalies_spec(entries, t));
        }
        i = i + 1;
    }
    proof {
        let empty_tail = names.skip(names.len() as int);
        assert(empty_tail.len() == 0);
        assert(mapped_roles_spec(entries, empty_tail, seps) =~= Seq::<Seq<char>>::empty());
        assert(anomalies_spec(entries, empty_tail) =~= Seq::<ClaimAnomaly>::empty());
        assert(str_views(roles@) + mapped_roles_spec(entries, empty_tail, seps) =~= str_views(
            roles@,
        ));
        assert(anomalies@ + anomalies_spec(entries, empty_tail) =~= anomalies@);
    }
    (roles, anomalies)
}

/// Maps the requested claims onto roles, requested order first; skipped
/// values contribute nothing.
pub fn parse_claims(
    claims: &AllOtherClaims,
    claims_to_extract: &Vec<String>,
    oidc_config: &CustomAppOidcConfig,
) -> (r: Vec<String>)
    ensures
        str_views(r@) == mapped_roles_spec(
            claims.0@,
            claims_to_extract@,
            oidc_config.claims_separator,
        ),
{
    let (roles, _anomalies) = parse_claims_with_log(claims, claims_to_extract, oidc_config);
    roles
}

} // verus!
