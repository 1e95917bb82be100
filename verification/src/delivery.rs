//! Delivery planning: which asset objects and library artifacts a
//! run must fetch, content-addressed asset paths, and the fail-slow
//! inspection of collected download results.
use vstd::prelude::*;
use vstd::string::StringExecFns;
use crate::metadata::{AssetObject, Download, Library};
use crate::platform::Platform;
use crate::strutil::{chars_of, push_chars, string_of};

verus! {

/// The content-addressed relative path of an asset object: its first
/// two digest characters as a directory, then the full digest.
pub open spec fn spec_asset_path(hash: Seq<char>) -> Seq<char> {
    "objects/"@ + hash.take(2) + seq!['/'] + hash
}

/// The relative storage path of an asset object. A digest shorter
/// than its two-character prefix names no object.
pub fn asset_object_path(hash: &str) -> (r: String)
    requires
        hash@.len() >= 2,
    ensures
        r@ == spec_asset_path(hash@),
{
    let chars = chars_of(hash);
    let mut out = chars_of("objects/");
    out.push(chars[0]);
    out.push(chars[1]);
    out.push('/');
    push_chars(&mut out, &chars);
    proof {
        assert(out@ =~= spec_asset_path(hash@));
    }
    string_of(&out)
}

/// The content CDN location an asset object is fetched from.
pub fn asset_url(hash: &str) -> (r: String)
    requires
        hash@.len() >= 2,
    ensures
        r@ == "https://resources.download.minecraft.net/"@ + hash@.take(2) + seq!['/'] + hash@,
{
    let chars = chars_of(hash);
    let mut out = chars_of("https://resources.download.minecraft.net/");
    out.push(chars[0]);
    out.push(chars[1]);
    out.push('/');
    push_chars(&mut out, &chars);
    proof {
        assert(out@ =~= "https://resources.download.minecraft.net/"@ + hash@.take(2) + seq!['/']
            + hash@);
    }
    string_of(&out)
}

/// Whether a digest is among the digests already stored.
pub open spec fn spec_hash_listed(present: Seq<String>, hash: Seq<char>) -> bool {
    exists|i: int| 0 <= i < present.len() && (#[trigger] present[i])@ == hash
}

/// The objects a delivery run fetches: objects whose digest is
/// already stored are skipped, and of several objects sharing one
/// digest only the first is fetched — the content-addressed layout
/// makes the rest redundant.
pub open spec fn spec_asset_plan(objects: Seq<AssetObject>, present: Seq<String>) -> Seq<
    AssetObject,
>
    decreases objects.len(),
{
    if objects.len() == 0 {
        Seq::empty()
    } else {
        let front = spec_asset_plan(objects.drop_last(), present);
        if spec_hash_listed(present, objects.last().hash@) || (exists|j: int|
            0 <= j < objects.len() - 1 && (#[trigger] objects[j]).hash@ == objects.last().hash@) {
            front
        } else {
            front.push(objects.last())
        }
    }
}

/// The plan fetches only input objects whose digest is not stored,
/// covers every digest that needs fetching, and names every digest at
/// most once: one physical download per digest.
pub proof fn lemma_asset_plan(objects: Seq<AssetObject>, present: Seq<String>)
    ensures
        forall|a: int|
            0 <= a < spec_asset_plan(objects, present).len() ==> objects.contains(
                #[trigger] spec_asset_plan(objects, present)[a],
            ),
        forall|a: int|
            0 <= a < spec_asset_plan(objects, present).len() ==> !spec_hash_listed(
                present,
                (#[trigger] spec_asset_plan(objects, present)[a]).hash@,
            ),
        forall|k: int|
            0 <= k < objects.len() ==> spec_hash_listed(present, (#[trigger] objects[k]).hash@) || (
            exists|a: int|
                0 <= a < spec_asset_plan(objects, present).len() && (#[trigger] spec_asset_plan(
                    objects,
                    present,
                )[a]).hash@ == objects[k].hash@),
        forall|a: int, b: int|
            0 <= a < b < spec_asset_plan(objects, present).len() ==> (#[trigger] spec_asset_plan(
                objects,
                present,
            )[a]).hash@ != (#[trigger] spec_asset_plan(objects, present)[b]).hash@,
    decreases objects.len(),
{
    if objects.len() > 0 {
        let front = objects.drop_last();
        lemma_asset_plan(front, present);
        let d = spec_asset_plan(objects, present);
        let df = spec_asset_plan(front, present);
        assert(forall|j: int| 0 <= j < front.len() ==> front[j] == objects[j]);
        assert forall|a: int| 0 <= a < d.len() implies objects.contains(#[trigger] d[a]) by {
            if a < df.len() {
                assert(front.contains(df[a]));
                let w = choose|w: int| 0 <= w < front.len() && front[w] == df[a];
                assert(objects[w] == d[a]);
            } else {
                assert(d[a] == objects[objects.len() - 1]);
            }
        }
        assert forall|k: int| 0 <= k < objects.len() implies spec_hash_listed(
            present,
            (#[trigger] objects[k]).hash@,
        ) || (exists|a: int| 0 <= a < d.len() && (#[trigger] d[a]).hash@ == objects[k].hash@) by {
            if k < objects.len() - 1 {
                if !spec_hash_listed(present, objects[k].hash@) {
                    let a = choose|a: int|
                        0 <= a < df.len() && (#[trigger] df[a]).hash@ == front[k].hash@;
                    assert(d[a].hash@ == objects[k].hash@);
                }
            } else {
                if !spec_hash_listed(present, objects[k].hash@) {
                    if exists|j: int|
                        0 <= j < objects.len() - 1 && (#[trigger] objects[j]).hash@
                            == objects.last().hash@ {
                        let j = choose|j: int|
                            0 <= j < objects.len() - 1 && (#[trigger] objects[j]).hash@
                                == objects.last().hash@;
                        let a = choose|a: int|
                            0 <= a < df.len() && (#[trigger] df[a]).hash@ == front[j].hash@;
                        assert(d[a].hash@ == objects[k].hash@);
                    } else {
                        assert(d[d.len() - 1].hash@ == objects[k].hash@);
                    }
                }
            }
        }
        assert forall|a: int, b: int|
            0 <= a < b < d.len() implies (#[trigger] d[a]).hash@ != (#[trigger] d[b]).hash@ by {
            if b >= df.len() {
                assert(front.contains(df[a]));
                let w = choose|w: int| 0 <= w < front.len() && front[w] == df[a];
                assert(objects[w].hash@ == d[a].hash@);
            }
        }
    }
}

/// Plans the asset fetches: skips objects whose digest is already
/// stored and fetches each remaining digest once.
pub fn plan_asset_fetches(objects: Vec<AssetObject>, present: &Vec<String>) -> (r: Vec<AssetObject>)
    ensures
        r@ == spec_asset_plan(objects@, present@),
{
    let ghost orig = objects@;
    let mut planned: Vec<AssetObject> = Vec::new();
    let mut objects = objects;
    proof {
        assert(orig.take(0) =~= Seq::<AssetObject>::empty());
        assert(objects@ =~= orig.skip(0));
    }
    let n = objects.len();
    let mut taken: usize = 0;
    while taken < n
        invariant
            n == orig.len(),
            objects@ == orig.skip(taken as int),
            taken <= n,
            planned@ == spec_asset_plan(orig.take(taken as int), present@),
        decreases n - taken,
    {
        let object = objects.remove(0);
        proof {
            assert(objects@ =~= orig.skip(taken + 1));
            assert(object == orig[taken as int]);
        }
        let mut stored = false;
        let m = present.len();
        for a in 0..m
            invariant
                m == present@.len(),
                stored ==> spec_hash_listed(present@, object.hash@),
                !stored ==> forall|b: int| 0 <= b < a ==> (#[trigger] present@[b])@ != object.hash@,
        {
            if crate::strutil::str_eq(present[a].as_str(), object.hash.as_str()) {
                stored = true;
            }
        }
        let mut seen = false;
        if !stored {
            let m2 = planned.len();
            for a in 0..m2
                invariant
                    m2 == planned@.len(),
                    seen ==> exists|b: int|
                        0 <= b < planned@.len() && (#[trigger] planned@[b]).hash@ == object.hash@,
                    !seen ==> forall|b: int|
                        0 <= b < a ==> (#[trigger] planned@[b]).hash@ != object.hash@,
            {
                if crate::strutil::str_eq(planned[a].hash.as_str(), object.hash.as_str()) {
                    seen = true;
                }
            }
        }
        proof {
            let prefix = orig.take(taken as int);
            let ext = orig.take(taken + 1);
            lemma_asset_plan(prefix, present@);
            assert(ext.drop_last() =~= prefix);
            assert(ext.last() == orig[taken as int]);
            assert(forall|j: int| 0 <= j < prefix.len() ==> ext[j] == prefix[j]);
            if stored {
                assert(spec_hash_listed(present@, ext.last().hash@));
                assert(spec_asset_plan(ext, present@) == planned@);
            } else if seen {
                let b = choose|b: int|
                    0 <= b < planned@.len() && (#[trigger] planned@[b]).hash@ == object.hash@;
                assert(prefix.contains(planned@[b]));
                let w = choose|w: int| 0 <= w < prefix.len() && prefix[w] == planned@[b];
                assert(ext[w].hash@ == ext.last().hash@);
                assert(spec_asset_plan(ext, present@) == planned@);
            } else {
                if exists|j: int|
                    0 <= j < ext.len() - 1 && (#[trigger] ext[j]).hash@ == ext.last().hash@ {
                    let j = choose|j: int|
                        0 <= j < ext.len() - 1 && (#[trigger] ext[j]).hash@ == ext.last().hash@;
                    assert(!spec_hash_listed(present@, prefix[j].hash@));
                    let a = choose|a: int|
                        0 <= a < spec_asset_plan(prefix, present@).len() && (
                        #[trigger] spec_asset_plan(prefix, present@)[a]).hash@
                            == prefix[j].hash@;
                    assert(planned@[a].hash@ == object.hash@);
                    assert(false);
                }
                assert(spec_asset_plan(ext, present@) == spec_asset_plan(prefix, present@).push(
                    object,
                ));
            }
        }
        if !stored && !seen {
            planned.push(object);
        }
        taken = taken + 1;
    }
    proof {
        assert(orig.take(n as int) =~= orig);
    }
    planned
}

/// The primary artifacts a delivery run downloads: each allowed
/// library's primary download, in document order.
pub open spec fn spec_library_fetches(libs: Seq<Library>, p: Platform) -> Seq<Download>
    decreases libs.len(),
{
    if libs.len() == 0 {
        Seq::empty()
    } else {
        let front = spec_library_fetches(libs.drop_last(), p);
        if libs.last().spec_allowed(p) && libs.last().downloads.artifact is Some {
            front.push(libs.last().downloads.artifact->0)
        } else {
            front
        }
    }
}

/// Plans the library downloads for this platform.
pub fn plan_library_fetches(libraries: &Vec<Library>, p: &Platform) -> (r: Vec<Download>)
    ensures
        r@ == spec_library_fetches(libraries@, *p),
{
    let mut r: Vec<Download> = Vec::new();
    let n = libraries.len();
    proof {
        assert(libraries@.take(0) =~= Seq::<Library>::empty());
    }
    for i in 0..n
        invariant
            n == libraries@.len(),
            r@ == spec_library_fetches(libraries@.take(i as int), *p),
    {
        proof {
            assert(libraries@.take(i + 1).drop_last() =~= libraries@.take(i as int));
            assert(libraries@.take(i + 1).last() == libraries@[i as int]);
        }
        if libraries[i].is_allowed(p) {
            match &libraries[i].downloads.artifact {
                Some(artifact) => {
                    r.push(artifact.clone());
                },
                None => {
                },
            }
        }
    }
    proof {
        assert(libraries@.take(n as int) =~= libraries@);
    }
    r
}

/// The storage path a download resolves to: the declared relative
/// path under the root when one is present, the root itself otherwise.
pub fn download_target_path(download: &Download, base: &str) -> (r: String)
    ensures
        download.path is Some ==> r@ == base@ + seq!['/'] + download.path->0@,
        download.path is None ==> r@ == base@,
{
    match &download.path {
        Some(child) => crate::strutil::path_join(base, child.as_str()),
        None => base.to_owned(),
    }
}

/// Inspects collected results after every task has finished: the
/// position and error of the first failing item, or `None` when all
/// succeeded. Completed siblings of a failing item are not undone.
pub fn first_failure<T, E>(results: Vec<Result<T, E>>) -> (r: Option<(usize, E)>)
    ensures
        r is None <==> (forall|i: int| 0 <= i < results@.len() ==> (#[trigger] results@[i]) is Ok),
        r matches Some(p) ==> (0 <= p.0 < results@.len() && (results@[p.0 as int] matches Err(e)
            && e == p.1) && (forall|j: int| 0 <= j < p.0 ==> (#[trigger] results@[j]) is Ok)),
{
    let n = results.len();
    let mut idx: usize = 0;
    while idx < n && results[idx].is_ok()
        invariant
            n == results@.len(),
            idx <= n,
            forall|j: int| 0 <= j < idx ==> (#[trigger] results@[j]) is Ok,
        decreases n - idx,
    {
        idx = idx + 1;
    }
    if idx == n {
        return None;
    }
    let mut owned = results;
    let item = owned.remove(idx);
    match item {
        Err(e) => Some((idx, e)),
        Ok(_) => {
            proof {
                assert(false);
            }
            None
        },
    }
}

} // verus!
