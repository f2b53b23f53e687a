//! URLs grouped by the host that they name.
use crate::iri::split_iri_reference;
use crate::target::{target_of, url_target, HostKey, TargetHost, UrlError};
use crate::target_map::{recorded, GroupText, TargetMap};
use crate::text::texts;
use vstd::prelude::*;

verus! {

/// The hosts that `urls` name, each with the first of the URLs that name it and the paths of all
/// of them, in the order of the URLs.
pub open spec fn grouped(urls: Seq<Seq<char>>) -> Map<HostKey, GroupText>
    decreases urls.len(),
{
    if urls.len() == 0 {
        Map::empty()
    } else {
        let url = urls.last();
        let (key, path) = url_target(url)->Ok_0;
        recorded(grouped(urls.drop_last()), key, url, path)
    }
}

/// Whether each of `urls` names a host.
pub open spec fn all_valid(urls: Seq<Seq<char>>) -> bool {
    forall|i: int| 0 <= i < urls.len() ==> url_target(#[trigger] urls[i]) is Ok
}

/// Whether `error` is what is wrong with the first of `urls` that names no host.
pub open spec fn first_error(urls: Seq<Seq<char>>, error: UrlError) -> bool {
    exists|i: int|
        #![trigger urls[i]]
        0 <= i < urls.len() && url_target(urls[i]) == Err::<(HostKey, Seq<char>), UrlError>(
            error,
        ) && all_valid(urls.take(i))
}

/// Groups `urls` by the host that they name. The first URL that names none is an error.
pub fn group_targets(urls: &[String]) -> (r: Result<TargetMap, UrlError>)
    ensures
        match r {
            Ok(targets) => {
                &&& all_valid(texts(urls@))
                &&& targets@ == grouped(texts(urls@))
            },
            Err(error) => first_error(texts(urls@), error),
        },
{
    let mut targets = TargetMap::new();
    let ghost all = texts(urls@);
    let mut i: usize = 0;
    assert(grouped(all.take(0)) == Map::<HostKey, GroupText>::empty());
    while i < urls.len()
        invariant
            i <= urls.len(),
            all == texts(urls@),
            all_valid(all.take(i as int)),
            targets@ == grouped(all.take(i as int)),
        decreases urls.len() - i,
    {
        let url = urls[i].as_str();
        assert(all[i as int] == url@);
        let parts = match split_iri_reference(url) {
            Ok(parts) => parts,
            Err(error) => return Err(UrlError::from(error)),
        };
        let (host, path) = match target_of(&parts) {
            Ok(target) => target,
            Err(error) => return Err(error),
        };
        targets.record(host, url, path.as_str());
        proof {
            let next = all.take(i + 1);
            assert(next.drop_last() == all.take(i as int));
            assert(next.last() == url@);
            assert forall|k: int| 0 <= k < next.len() implies url_target(#[trigger] next[k]) is Ok by {
                if k < i {
                    assert(next[k] == all.take(i as int)[k]);
                }
            }
        }
        i = i + 1;
    }
    assert(all.take(i as int) == all);
    Ok(targets)
}

/// Whether `url` names the host `key`.
pub open spec fn names_host(url: Seq<char>, key: HostKey) -> bool {
    url_target(url) is Ok && url_target(url)->Ok_0.0 == key
}

/// The path that `url` names.
pub open spec fn named_path(url: Seq<char>) -> Seq<char> {
    url_target(url)->Ok_0.1
}

/// The URLs of `urls` that name the host `key`, in their order.
pub open spec fn urls_for(urls: Seq<Seq<char>>, key: HostKey) -> Seq<Seq<char>> {
    urls.filter(|url: Seq<char>| names_host(url, key))
}

/// A host stands in the groups if and only if a URL names it; with it stand the first URL that
/// does and the paths of all that do, in their order, each as often as it was named.
pub proof fn law_group_of_host(urls: Seq<Seq<char>>, key: HostKey)
    requires
        all_valid(urls),
    ensures
        grouped(urls).contains_key(key) <==> urls_for(urls, key).len() > 0,
        grouped(urls).contains_key(key) ==> grouped(urls)[key] == (
            urls_for(urls, key)[0],
            urls_for(urls, key).map_values(|url: Seq<char>| named_path(url)),
        ),
    decreases urls.len(),
{
    reveal_with_fuel(Seq::<_>::filter, 2);
    let path = |url: Seq<char>| named_path(url);
    if urls.len() > 0 {
        let before = urls.drop_last();
        let url = urls.last();
        assert(urls[urls.len() - 1] == url);
        assert(forall|i: int| 0 <= i < before.len() ==> before[i] == urls[i]);
        law_group_of_host(before, key);
        let named = urls_for(before, key);
        if names_host(url, key) {
            assert(urls_for(urls, key) == named.push(url));
            assert(named.push(url).map_values(path) == named.map_values(path).push(path(url)));
            if named.len() == 0 {
                assert(named.map_values(path).push(path(url)) == seq![path(url)]);
            }
        } else {
            assert(urls_for(urls, key) == named);
        }
    }
}

/// The path of each URL stands with the host that the URL names.
pub proof fn law_path_is_kept(urls: Seq<Seq<char>>, i: int)
    requires
        all_valid(urls),
        0 <= i < urls.len(),
    ensures
        ({
            let (key, path) = url_target(urls[i])->Ok_0;
            grouped(urls).contains_key(key) && grouped(urls)[key].1.contains(path)
        }),
{
    let (key, path) = url_target(urls[i])->Ok_0;
    let names = |url: Seq<char>| names_host(url, key);
    let paths = |url: Seq<char>| named_path(url);
    law_group_of_host(urls, key);
    urls.lemma_filter_contains(names, i);
    let named = urls_for(urls, key);
    let k = choose|k: int| 0 <= k < named.len() && named[k] == urls[i];
    assert(named.map_values(paths)[k] == path);
}

/// The URL that stands with a host names that host, so it can serve as a base for the host's
/// paths.
pub proof fn law_group_url_names_host(urls: Seq<Seq<char>>, key: HostKey)
    requires
        all_valid(urls),
        grouped(urls).contains_key(key),
    ensures
        urls.contains(grouped(urls)[key].0),
        names_host(grouped(urls)[key].0, key),
{
    let names = |url: Seq<char>| names_host(url, key);
    law_group_of_host(urls, key);
    urls.lemma_filter_pred(names, 0);
    urls.lemma_filter_contains_rev(names, urls_for(urls, key)[0]);
}

/// Every host is one for the scheme `ftp` or `ftps`.
pub proof fn law_schemes(urls: Seq<Seq<char>>, key: HostKey)
    requires
        all_valid(urls),
        grouped(urls).contains_key(key),
    ensures
        key.scheme == "ftp"@ || key.scheme == "ftps"@,
{
    law_group_url_names_host(urls, key);
}

/// URLs behind others add their paths behind those of the others; where the others name the host,
/// its URL stays.
pub proof fn law_more_urls(urls: Seq<Seq<char>>, more: Seq<Seq<char>>, key: HostKey)
    requires
        all_valid(urls),
        all_valid(more),
    ensures
        all_valid(urls + more),
        grouped(urls + more).contains_key(key) <==> grouped(urls).contains_key(key) || grouped(
            more,
        ).contains_key(key),
        grouped(urls + more).contains_key(key) ==> grouped(urls + more)[key] == (
            if grouped(urls).contains_key(key) {
                grouped(urls)[key].0
            } else {
                grouped(more)[key].0
            },
            paths_for(urls, key) + paths_for(more, key),
        ),
{
    let all = urls + more;
    let names = |url: Seq<char>| names_host(url, key);
    let paths = |url: Seq<char>| named_path(url);
    assert forall|i: int| 0 <= i < all.len() implies url_target(#[trigger] all[i]) is Ok by {
        if i < urls.len() {
            assert(all[i] == urls[i]);
        } else {
            assert(all[i] == more[i - urls.len()]);
        }
    }
    law_group_of_host(urls, key);
    law_group_of_host(more, key);
    law_group_of_host(all, key);
    Seq::filter_distributes_over_add(urls, more, names);
    let a = urls_for(urls, key);
    let b = urls_for(more, key);
    assert(urls_for(all, key) == a + b);
    assert((a + b).map_values(paths) == a.map_values(paths) + b.map_values(paths));
    if a.len() == 0 {
        assert(paths_for(urls, key) == Seq::<Seq<char>>::empty());
    }
    if b.len() == 0 {
        assert(paths_for(more, key) == Seq::<Seq<char>>::empty());
    }
}

/// The paths that `urls` name on the host `key`.
pub open spec fn paths_for(urls: Seq<Seq<char>>, key: HostKey) -> Seq<Seq<char>> {
    if grouped(urls).contains_key(key) {
        grouped(urls)[key].1
    } else {
        Seq::empty()
    }
}

/// Either all URLs name a host or the first that does not decides the error.
pub proof fn law_outcome_is_determined(urls: Seq<Seq<char>>)
    ensures
        all_valid(urls) <==> !exists|error: UrlError| first_error(urls, error),
        forall|a: UrlError, b: UrlError|
            first_error(urls, a) && first_error(urls, b) ==> a == b,
{
    if !all_valid(urls) {
        assert(urls.take(urls.len() as int) == urls);
        lemma_first_error_exists(urls, urls.len() as int);
    }
    assert forall|a: UrlError| first_error(urls, a) implies !all_valid(urls) by {}
    assert forall|a: UrlError, b: UrlError|
        first_error(urls, a) && first_error(urls, b) implies a == b by {
        let i = choose|i: int|
            #![trigger urls[i]]
            0 <= i < urls.len() && url_target(urls[i]) == Err::<
                (HostKey, Seq<char>),
                UrlError,
            >(a) && all_valid(urls.take(i));
        let j = choose|j: int|
            #![trigger urls[j]]
            0 <= j < urls.len() && url_target(urls[j]) == Err::<
                (HostKey, Seq<char>),
                UrlError,
            >(b) && all_valid(urls.take(j));
        if i < j {
            assert(urls.take(j)[i] == urls[i]);
        }
        if j < i {
            assert(urls.take(i)[j] == urls[j]);
        }
    }
}

proof fn lemma_first_error_exists(urls: Seq<Seq<char>>, n: int)
    requires
        0 <= n <= urls.len(),
        !all_valid(urls.take(n)),
    ensures
        exists|error: UrlError| first_error(urls, error),
    decreases n,
{
    assert(urls.take(0).len() == 0);
    if n > 0 {
        if all_valid(urls.take(n - 1)) {
            let url = urls[n - 1];
            assert(url_target(url) is Err) by {
                if url_target(url) is Ok {
                    assert forall|k: int| 0 <= k < n implies url_target(
                        #[trigger] urls.take(n)[k],
                    ) is Ok by {
                        if k < n - 1 {
                            assert(urls.take(n)[k] == urls.take(n - 1)[k]);
                        }
                    }
                }
            }
            assert(first_error(urls, url_target(url)->Err_0));
        } else {
            lemma_first_error_exists(urls, n - 1);
        }
    }
}

/// No URLs make no groups. One more URL adds its path behind those of the host that it names, whose
/// URL stays where there is one, and leaves all other hosts as they are.
pub proof fn law_one_more_url(urls: Seq<Seq<char>>, url: Seq<char>, key: HostKey)
    requires
        url_target(url) is Ok,
    ensures
        !grouped(Seq::empty()).contains_key(key),
        ({
            let before = grouped(urls);
            let after = grouped(urls.push(url));
            let (named, path) = url_target(url)->Ok_0;
            &&& key != named ==> (after.contains_key(key) <==> before.contains_key(key)) && (
            before.contains_key(key) ==> after[key] == before[key])
            &&& key == named ==> after.contains_key(key) && if before.contains_key(key) {
                after[key].0 == before[key].0 && after[key].1 =~= before[key].1 + seq![path]
            } else {
                after[key].0 == url && after[key].1 =~= seq![path]
            }
        }),
{
    assert(urls.push(url).drop_last() == urls);
    assert(urls.push(url).last() == url);
    assert(grouped(Seq::<Seq<char>>::empty()) == Map::<HostKey, GroupText>::empty());
}

/// URLs that all name a host make no error. Of others the error is that of the first that names
/// none, and no other.
pub proof fn law_first_bad_url(urls: Seq<Seq<char>>, bad: int)
    requires
        0 <= bad <= urls.len(),
        forall|i: int| 0 <= i < bad ==> url_target(#[trigger] urls[i]) is Ok,
        bad < urls.len() ==> url_target(urls[bad]) is Err,
    ensures
        all_valid(urls) <==> bad == urls.len(),
        forall|error: UrlError| #[trigger]
            first_error(urls, error) <==> bad < urls.len() && url_target(urls[bad]) == Err::<
                (HostKey, Seq<char>),
                UrlError,
            >(error),
{
    law_outcome_is_determined(urls);
    if bad < urls.len() {
        let error = url_target(urls[bad])->Err_0;
        let front = urls.take(bad);
        assert forall|i: int| 0 <= i < front.len() implies url_target(#[trigger] front[i]) is Ok by {
            assert(front[i] == urls[i]);
        }
        assert(first_error(urls, error));
    }
}

} // verus!
