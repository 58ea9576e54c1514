//! The search page: the modules whose technical name holds a text, with the
//! buckets in which each repository has them.

use crate::models::search::{find, is_found, wanted_of, Found, Wanted};
use crate::models::store::Store;
use crate::version::{
    bucket_of_text, is_plain_decimal, odoo_version_text, odoo_version_u8_to_string,
    parse_odoo_version,
};
use vstd::prelude::*;

verus! {

/// A technical name that was found, with the key of a repository and the
/// buckets, as texts, in which the repository has it.
#[derive(Debug)]
pub struct SearchGenericInfoResponse {
    pub technical_name: String,
    pub versions: Vec<(String, Vec<String>)>,
}

/// What a search may be narrowed to: a bucket, as text, and whether the
/// modules can be installed.
#[derive(Debug)]
pub struct RouteSearchRequest {
    pub odoo_version: Option<String>,
    pub installable: Option<bool>,
}

/// The buckets `v` as texts, one for one.
pub open spec fn bucket_texts(v: Seq<u8>) -> Seq<Seq<char>> {
    Seq::new(v.len(), |i: int| odoo_version_text(v[i]))
}

/// Whether `info` shows the group `group`.
pub open spec fn shows_group(info: SearchGenericInfoResponse, group: Found) -> bool {
    &&& info.technical_name@ == group.technical_name@
    &&& info.versions@.len() == 1
    &&& info.versions@[0].0@ == group.src@
    &&& crate::text::texts(info.versions@[0].1@) == bucket_texts(group.versions@)
}

/// Whether `infos` show, one for one, the groups `groups`.
pub open spec fn show(infos: Seq<SearchGenericInfoResponse>, groups: Seq<Found>) -> bool {
    infos.len() == groups.len() && forall|k: int|
        0 <= k < infos.len() ==> shows_group(#[trigger] infos[k], groups[k])
}

/// Whether `infos` show what the search finds in the catalog.
pub open spec fn is_answer(infos: Seq<SearchGenericInfoResponse>, store: Store, wanted: Wanted) -> bool {
    exists|groups: Seq<Found>|
        #[trigger] is_found(groups, store, wanted, store.modules@.len() as int) && show(
            infos,
            groups,
        )
}

/// The groups `groups`, each bucket as text.
pub fn responses(groups: &Vec<Found>) -> (r: Vec<SearchGenericInfoResponse>)
    ensures
        show(r@, groups@),
{
    let mut r: Vec<SearchGenericInfoResponse> = Vec::new();
    let mut k: usize = 0;
    while k < groups.len()
        invariant
            k <= groups.len(),
            show(r@, groups@.take(k as int)),
        decreases groups.len() - k,
    {
        let mut texts: Vec<String> = Vec::new();
        let mut x: usize = 0;
        while x < groups[k].versions.len()
            invariant
                x <= groups@[k as int].versions@.len(),
                k < groups.len(),
                crate::text::texts(texts@) == bucket_texts(groups@[k as int].versions@).take(
                    x as int,
                ),
            decreases groups@[k as int].versions@.len() - x,
        {
            let ghost was = texts@;
            texts.push(odoo_version_u8_to_string(&groups[k].versions[x]));
            assert(crate::text::texts(texts@) =~= crate::text::texts(was).push(
                odoo_version_text(groups@[k as int].versions@[x as int]),
            ));
            assert(crate::text::texts(texts@) =~= bucket_texts(groups@[k as int].versions@).take(
                x + 1,
            ));
            x += 1;
        }
        proof {
            let all = bucket_texts(groups@[k as int].versions@);
            assert(all.take(all.len() as int) =~= all);
        }
        let mut versions: Vec<(String, Vec<String>)> = Vec::new();
        versions.push((groups[k].src.clone(), texts));
        let ghost before = r@;
        r.push(
            SearchGenericInfoResponse { technical_name: groups[k].technical_name.clone(), versions },
        );
        proof {
            assert forall|w: int| 0 <= w < before.len() implies r@[w] == before[w] by {}
            assert(shows_group(r@[k as int], groups@[k as int]));
        }
        k += 1;
    }
    proof {
        assert(groups@.take(groups@.len() as int) =~= groups@);
    }
    r
}

/// The modules whose technical name holds `module_name`.
pub fn get_modules(store: &Store, module_name: &str) -> (r: Vec<SearchGenericInfoResponse>)
    requires
        store.wf(),
    ensures
        is_answer(r@, *store, wanted_of(module_name@, None, None)),
{
    let groups = find(store, module_name, None, None);
    let r = responses(&groups);
    assert(is_found(groups@, *store, wanted_of(module_name@, None, None), store.modules@.len() as int));
    r
}

/// The modules of the bucket `odoo_version` whose technical name holds
/// `module_name`.
pub fn get_modules_by_odoo_version(store: &Store, module_name: &str, odoo_version: &u8) -> (r: Vec<
    SearchGenericInfoResponse,
>)
    requires
        store.wf(),
    ensures
        is_answer(r@, *store, wanted_of(module_name@, Some(*odoo_version), None)),
{
    let groups = find(store, module_name, Some(*odoo_version), None);
    let r = responses(&groups);
    assert(is_found(
        groups@,
        *store,
        wanted_of(module_name@, Some(*odoo_version), None),
        store.modules@.len() as int,
    ));
    r
}

/// The modules of the bucket `odoo_version` whose technical name holds
/// `module_name` and that can be installed, or cannot, as `installable`
/// says.
pub fn get_modules_by_odoo_version_installable(
    store: &Store,
    module_name: &str,
    odoo_version: &u8,
    installable: &bool,
) -> (r: Vec<SearchGenericInfoResponse>)
    requires
        store.wf(),
    ensures
        is_answer(r@, *store, wanted_of(module_name@, Some(*odoo_version), Some(*installable))),
{
    let groups = find(store, module_name, Some(*odoo_version), Some(*installable));
    let r = responses(&groups);
    assert(is_found(
        groups@,
        *store,
        wanted_of(module_name@, Some(*odoo_version), Some(*installable)),
        store.modules@.len() as int,
    ));
    r
}

/// The modules whose technical name holds `module_name` and that can be
/// installed, or cannot, as `installable` says.
pub fn get_modules_by_installable(store: &Store, module_name: &str, installable: &bool) -> (r: Vec<
    SearchGenericInfoResponse,
>)
    requires
        store.wf(),
    ensures
        is_answer(r@, *store, wanted_of(module_name@, None, Some(*installable))),
{
    let groups = find(store, module_name, None, Some(*installable));
    let r = responses(&groups);
    assert(is_found(
        groups@,
        *store,
        wanted_of(module_name@, None, Some(*installable)),
        store.modules@.len() as int,
    ));
    r
}

/// The bucket that a request names; none where it names none.
pub open spec fn bucket_asked(request: RouteSearchRequest) -> Option<u8> {
    match request.odoo_version {
        Some(text) => Some(bucket_of_text(text@) as u8),
        None => None,
    }
}

/// Whether a request can be answered: where it names a bucket, the name is
/// a plain decimal number.
pub open spec fn is_request(request: RouteSearchRequest) -> bool {
    request.odoo_version matches Some(text) ==> is_plain_decimal(text@)
}

/// Answers a search for `module_name`, narrowed as `request` asks; nothing
/// where the request names a bucket that is no number.
pub fn search(store: &Store, module_name: &str, request: &RouteSearchRequest) -> (r: Option<
    Vec<SearchGenericInfoResponse>,
>)
    requires
        store.wf(),
    ensures
        r is Some <==> is_request(*request),
        r matches Some(infos) ==> is_answer(
            infos@,
            *store,
            wanted_of(module_name@, bucket_asked(*request), request.installable),
        ),
{
    let bucket = match &request.odoo_version {
        Some(text) => match parse_odoo_version(text.as_str()) {
            Some(v) => Some(v),
            None => {
                return None;
            },
        },
        None => None,
    };
    let groups = find(store, module_name, bucket, request.installable);
    let r = responses(&groups);
    assert(is_found(
        groups@,
        *store,
        wanted_of(module_name@, bucket_asked(*request), request.installable),
        store.modules@.len() as int,
    ));
    Some(r)
}

} // verus!
