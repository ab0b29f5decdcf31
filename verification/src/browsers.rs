//! Turning the applications that handle `https` into the browser records the
//! app shows.

use vstd::prelude::*;
use vstd::string::*;
use crate::path::{AppPath, join_chars, lemma_join_chars_layout};
use crate::bundle_ids::strictly_sorted;
use crate::order::{str_lt, lemma_str_lt_irreflexive};

verus! {

/// The app's own bundle identifier.
pub const APP_BUNDLE_ID: &'static str = "software.Browsers";

/// A browser as the app lists it.
pub struct InstalledBrowser<P> {
    pub executable_path: String,
    pub display_name: String,
    pub bundle: String,
    pub user_dir: String,
    pub icon_path: String,
    pub profiles: Vec<P>,
}

/// What the bundle of an application says about it: where the bundle is, its
/// name (`CFBundleName`) and its executable (`CFBundleExecutable`).
pub struct BundleDetails {
    pub bundle_path: String,
    pub display_name: String,
    pub executable_name: String,
}

/// What the repository of supported applications says about an application:
/// its identifier, its absolute configuration directory and its profiles.
pub struct SupportedAppDetails<P> {
    pub app_id: String,
    pub app_config_dir_absolute: String,
    pub profiles: Vec<P>,
}

/// Gives access to the repository of supported applications.
pub struct OsHelper<R> {
    app_repository: R,
}

/// The file in which the icon of `bundle_id` is stored.
pub open spec fn icon_path_spec(icons_root_dir: Seq<char>, bundle_id: Seq<char>) -> Seq<char> {
    join_chars(icons_root_dir, bundle_id + ".png"@)
}

/// The executable of a bundle: `Contents/MacOS/<executable>` inside it.
pub open spec fn executable_path_spec(bundle_path: Seq<char>, executable_name: Seq<char>) -> Seq<
    char,
> {
    join_chars(join_chars(join_chars(bundle_path, "Contents"@), "MacOS"@), executable_name)
}

/// Whether `bundle_id` names this app itself.
pub fn is_own_bundle(bundle_id: &str) -> (r: bool)
    ensures
        r == (bundle_id@ == APP_BUNDLE_ID@),
{
    bundle_id.to_owned() == APP_BUNDLE_ID.to_owned()
}

/// Where the icon of `bundle_id` is stored under `icons_root_dir`.
pub fn bundle_icon_path(icons_root_dir: &AppPath, bundle_id: &str) -> (r: AppPath)
    ensures
        r@ == icon_path_spec(icons_root_dir@, bundle_id@),
        icons_root_dir@.len() > 0 && icons_root_dir@.last() != '/' && !(bundle_id@.len() > 0
            && bundle_id@[0] == '/') ==> r@ == icons_root_dir@ + "/"@ + bundle_id@ + ".png"@,
{
    proof {
        lemma_icon_path_layout(icons_root_dir@, bundle_id@);
    }
    let icon_filename = bundle_id.to_owned().concat(".png");
    icons_root_dir.join(icon_filename.as_str())
}

/// The executable inside the bundle at `bundle_path`.
pub fn bundle_executable_path(bundle_path: &str, executable_name: &str) -> (r: AppPath)
    ensures
        r@ == executable_path_spec(bundle_path@, executable_name@),
        bundle_path@.len() > 0 && bundle_path@.last() != '/' && !(executable_name@.len() > 0
            && executable_name@[0] == '/') ==> r@ == bundle_path@ + "/Contents/MacOS/"@
            + executable_name@,
{
    proof {
        lemma_executable_path_layout(bundle_path@, executable_name@);
    }
    AppPath::new(bundle_path).join("Contents").join("MacOS").join(executable_name)
}

/// The icon of a bundle is `<icons root>/<bundle id>.png`.
pub proof fn lemma_icon_path_layout(icons_root_dir: Seq<char>, bundle_id: Seq<char>)
    ensures
        icons_root_dir.len() > 0 && icons_root_dir.last() != '/' && !(bundle_id.len() > 0
            && bundle_id[0] == '/') ==> icon_path_spec(icons_root_dir, bundle_id) == icons_root_dir
            + "/"@ + bundle_id + ".png"@,
{
    reveal_strlit("/");
    reveal_strlit(".png");
    let c = bundle_id + ".png"@;
    if icons_root_dir.len() > 0 && icons_root_dir.last() != '/' && !(bundle_id.len() > 0
        && bundle_id[0] == '/') {
        assert(c[0] != '/');
        assert(icon_path_spec(icons_root_dir, bundle_id) =~= icons_root_dir + "/"@ + bundle_id
            + ".png"@);
    }
}

/// The executable of a bundle is `<bundle>/Contents/MacOS/<executable>` when
/// the executable's name is relative and the bundle path does not end in `/`;
/// a relative name always comes last, after the bundle path and
/// `Contents/MacOS/`, and an absolute one is taken as it is.
pub proof fn lemma_executable_path_layout(bundle_path: Seq<char>, executable_name: Seq<char>)
    ensures
        bundle_path.len() > 0 && bundle_path.last() != '/' && !(executable_name.len() > 0
            && executable_name[0] == '/') ==> executable_path_spec(bundle_path, executable_name)
            == bundle_path + "/Contents/MacOS/"@ + executable_name,
        executable_name.len() > 0 && executable_name[0] == '/' ==> executable_path_spec(
            bundle_path,
            executable_name,
        ) == executable_name,
        !(executable_name.len() > 0 && executable_name[0] == '/') ==> {
            let p = executable_path_spec(bundle_path, executable_name);
            &&& p.len() >= bundle_path.len() + "Contents/MacOS/"@.len() + executable_name.len()
            &&& p.subrange(0, bundle_path.len() as int) == bundle_path
            &&& p.subrange(p.len() - executable_name.len() - "Contents/MacOS/"@.len(), p.len() as int)
                == "Contents/MacOS/"@ + executable_name
        },
{
    let b = bundle_path;
    let e = executable_name;
    let p1 = join_chars(b, "Contents"@);
    let p2 = join_chars(p1, "MacOS"@);
    let p3 = join_chars(p2, e);
    reveal_strlit("Contents");
    reveal_strlit("MacOS");
    lemma_join_chars_layout(b, "Contents"@);
    let gap: int = if b.len() == 0 || b.last() == '/' { 0 } else { 1 };
    assert(p1.len() == b.len() + gap + 8);
    assert(p1.subrange(b.len() + gap, p1.len() as int) == "Contents"@);
    assert(p1.last() == p1.subrange(b.len() + gap, p1.len() as int)[7]);
    lemma_join_chars_after(p1, "MacOS"@);
    assert(p2.last() == 'S') by {
        assert(p2 == p1 + "/"@ + "MacOS"@);
        reveal_strlit("/");
    }
    if !(e.len() > 0 && e[0] == '/') {
        lemma_join_chars_after(p2, e);
        assert(p3 =~= p1 + "/MacOS/"@ + e) by {
            reveal_strlit("/");
            reveal_strlit("/MacOS/");
        }
        assert(p3.subrange(0, b.len() as int) =~= b) by {
            assert forall|m: int| 0 <= m < b.len() implies #[trigger] p3.subrange(0, b.len() as int)[m] == b[m] by {
                assert(p1.subrange(0, b.len() as int)[m] == b[m]);
                assert(p3[m] == p1[m]);
            }
        }
        assert(p3.subrange(p3.len() - e.len() - 15, p3.len() as int) =~= "Contents/MacOS/"@ + e) by {
            reveal_strlit("/MacOS/");
            reveal_strlit("Contents/MacOS/");
            assert forall|m: int| 0 <= m < 8 implies p1[p1.len() - 8 + m] == #[trigger] "Contents"@[m] by {
                assert(p1.subrange(b.len() + gap, p1.len() as int)[m] == p1[b.len() + gap + m]);
            }
        }
        if b.len() > 0 && b.last() != '/' {
            lemma_join_chars_after(b, "Contents"@);
            assert(p3 =~= b + "/Contents/MacOS/"@ + e) by {
                reveal_strlit("/");
                reveal_strlit("/MacOS/");
                reveal_strlit("/Contents/MacOS/");
            }
        }
    }
}

/// Joining a relative component onto a base that does not end in `/` puts
/// exactly one `/` between them.
proof fn lemma_join_chars_after(base: Seq<char>, component: Seq<char>)
    requires
        base.len() > 0,
        base.last() != '/',
        !(component.len() > 0 && component[0] == '/'),
    ensures
        join_chars(base, component) == base + "/"@ + component,
{
    reveal_strlit("/");
    assert(join_chars(base, component) =~= base + "/"@ + component);
}

/// The candidates that are browsers, in their order.
pub open spec fn present<T>(candidates: Seq<Option<T>>) -> Seq<T>
    decreases candidates.len(),
{
    if candidates.len() == 0 {
        Seq::empty()
    } else {
        match candidates[0] {
            Some(v) => seq![v] + present(candidates.drop_first()),
            None => present(candidates.drop_first()),
        }
    }
}

impl<R> OsHelper<R> {
    /// The repository that this helper gives access to.
    pub closed spec fn repository(&self) -> R {
        self.app_repository
    }

    /// A helper over `app_repository`.
    pub fn new(app_repository: R) -> (r: OsHelper<R>)
        ensures
            r.repository() == app_repository,
    {
        OsHelper { app_repository: app_repository }
    }

    /// The repository of supported applications.
    pub fn get_app_repository(&self) -> (r: &R)
        ensures
            *r == self.repository(),
    {
        &self.app_repository
    }

    /// The browsers among the candidates, keeping their order.
    pub fn get_installed_browsers<P>(&self, candidates: Vec<Option<InstalledBrowser<P>>>) -> (r: Vec<
        InstalledBrowser<P>,
    >)
        ensures
            r@ == present(candidates@),
    {
        let mut rest = candidates;
        let mut browsers: Vec<InstalledBrowser<P>> = Vec::new();
        while rest.len() > 0
            invariant
                browsers@ + present(rest@) == present(candidates@),
            decreases rest@.len(),
        {
            let ghost before = rest@;
            let candidate = rest.remove(0);
            proof {
                assert(rest@ =~= before.drop_first());
            }
            match candidate {
                Some(browser) => {
                    let ghost b = browser;
                    browsers.push(browser);
                    proof {
                        assert(browsers@ + present(rest@) =~= (browsers@.drop_last() + (seq![b] + present(rest@))));
                    }
                },
                None => {},
            }
        }
        browsers
    }

    /// The record of the application `bundle_id`, or `None` when it is this
    /// app itself. `bundle` and `supported_app` are what its bundle and the
    /// repository say about it; its icon is stored under `icons_root_dir`.
    pub fn to_installed_browser<P>(
        &self,
        bundle_id: &str,
        icons_root_dir: &AppPath,
        bundle: BundleDetails,
        supported_app: SupportedAppDetails<P>,
    ) -> (r: Option<InstalledBrowser<P>>)
        ensures
            r is None <==> bundle_id@ == APP_BUNDLE_ID@,
            r matches Some(b) ==> {
                &&& b.executable_path@ == executable_path_spec(
                    bundle.bundle_path@,
                    bundle.executable_name@,
                )
                &&& b.display_name@ == bundle.display_name@
                &&& b.bundle@ == supported_app.app_id@
                &&& b.user_dir@ == supported_app.app_config_dir_absolute@
                &&& b.icon_path@ == icon_path_spec(icons_root_dir@, bundle_id@)
                &&& b.profiles == supported_app.profiles
            },
    {
        if is_own_bundle(bundle_id) {
            return None;
        }
        let icon_path = bundle_icon_path(icons_root_dir, bundle_id);
        let executable_path = bundle_executable_path(
            bundle.bundle_path.as_str(),
            bundle.executable_name.as_str(),
        );
        Some(
            InstalledBrowser {
                executable_path: executable_path.to_path_string(),
                display_name: bundle.display_name,
                bundle: supported_app.app_id,
                user_dir: supported_app.app_config_dir_absolute,
                icon_path: icon_path.to_path_string(),
                profiles: supported_app.profiles,
            },
        )
    }
}

/// The identifiers that the listing shows: all but the app's own, in order.
pub open spec fn listed_ids(ids: Seq<Seq<char>>) -> Seq<Seq<char>>
    decreases ids.len(),
{
    if ids.len() == 0 {
        Seq::empty()
    } else if ids[0] == APP_BUNDLE_ID@ {
        listed_ids(ids.drop_first())
    } else {
        seq![ids[0]] + listed_ids(ids.drop_first())
    }
}

/// One candidate per identifier, as `to_installed_browser` gives them: none for
/// the app itself, the record of the identifier for every other.
pub open spec fn candidates_for<P>(
    ids: Seq<Seq<char>>,
    record: spec_fn(Seq<char>) -> InstalledBrowser<P>,
) -> Seq<Option<InstalledBrowser<P>>> {
    ids.map_values(
        |b: Seq<char>|
            if b == APP_BUNDLE_ID@ {
                None
            } else {
                Some(record(b))
            },
    )
}

/// Picking the browsers out of two runs of candidates one after the other
/// gives the browsers of the first run, then those of the second; a single
/// candidate gives its browser, or nothing when it is none.
pub proof fn lemma_present_concat<T>(a: Seq<Option<T>>, b: Seq<Option<T>>, v: T)
    ensures
        present(a + b) == present(a) + present(b),
        present(seq![Some(v)]) == seq![v],
        present(seq![None::<T>]) == Seq::<T>::empty(),
    decreases a.len(),
{
    assert(seq![Some(v)].drop_first() =~= Seq::<Option<T>>::empty());
    assert(seq![None::<T>].drop_first() =~= Seq::<Option<T>>::empty());
    assert(seq![v] + Seq::<T>::empty() =~= seq![v]);
    assert(present(Seq::<Option<T>>::empty()) == Seq::<T>::empty());
    assert(present(seq![Some(v)]) == seq![v] + present(seq![Some(v)].drop_first()));
    assert(present(seq![None::<T>]) == present(seq![None::<T>].drop_first()));
    if a.len() == 0 {
        assert(a + b =~= b);
        assert(present(a) + present(b) =~= present(b));
    } else {
        assert((a + b).drop_first() =~= a.drop_first() + b);
        lemma_present_concat(a.drop_first(), b, v);
        match a[0] {
            Some(x) => {
                assert(present(a + b) =~= seq![x] + (present(a.drop_first()) + present(b)));
                assert(present(a) + present(b) =~= seq![x] + (present(a.drop_first()) + present(b)));
            },
            None => {},
        }
    }
}

/// The listed identifiers of two runs of identifiers one after the other are
/// those of the first run, then those of the second; a single identifier is
/// listed unless it is the app's own (`software.Browsers`).
pub proof fn lemma_listed_ids_concat(a: Seq<Seq<char>>, b: Seq<Seq<char>>, x: Seq<char>)
    ensures
        listed_ids(a + b) == listed_ids(a) + listed_ids(b),
        listed_ids(seq![x]) == if x == "software.Browsers"@ {
            Seq::<Seq<char>>::empty()
        } else {
            seq![x]
        },
    decreases a.len(),
{
    assert(seq![x].drop_first() =~= Seq::<Seq<char>>::empty());
    assert(seq![x] + Seq::<Seq<char>>::empty() =~= seq![x]);
    assert(listed_ids(Seq::<Seq<char>>::empty()) == Seq::<Seq<char>>::empty());
    assert(listed_ids(seq![x]) == if x == APP_BUNDLE_ID@ {
        listed_ids(seq![x].drop_first())
    } else {
        seq![x] + listed_ids(seq![x].drop_first())
    });
    if a.len() == 0 {
        assert(a + b =~= b);
        assert(listed_ids(a) + listed_ids(b) =~= listed_ids(b));
    } else {
        assert((a + b).drop_first() =~= a.drop_first() + b);
        lemma_listed_ids_concat(a.drop_first(), b, x);
        if a[0] != APP_BUNDLE_ID@ {
            assert(listed_ids(a + b) =~= seq![a[0]] + (listed_ids(a.drop_first()) + listed_ids(b)));
            assert(listed_ids(a) + listed_ids(b) =~= seq![a[0]] + (listed_ids(a.drop_first())
                + listed_ids(b)));
        }
    }
}

/// The listing is the records of the identifiers other than the app's own,
/// in the order of the identifiers.
pub proof fn lemma_listing_order<P>(
    ids: Seq<Seq<char>>,
    record: spec_fn(Seq<char>) -> InstalledBrowser<P>,
)
    ensures
        present(candidates_for(ids, record)) == listed_ids(ids).map_values(record),
    decreases ids.len(),
{
    let c = candidates_for(ids, record);
    if ids.len() > 0 {
        let rest = ids.drop_first();
        assert(c.drop_first() =~= candidates_for(rest, record));
        lemma_listing_order(rest, record);
        if ids[0] == APP_BUNDLE_ID@ {
        } else {
            assert(listed_ids(ids).map_values(record) =~= seq![record(ids[0])]
                + listed_ids(rest).map_values(record));
        }
    } else {
        assert(listed_ids(ids).map_values(record) =~= Seq::<InstalledBrowser<P>>::empty());
    }
}

/// Every listed identifier is one of the identifiers.
pub proof fn lemma_listed_ids_subset(ids: Seq<Seq<char>>, x: Seq<char>)
    ensures
        listed_ids(ids).contains(x) ==> ids.contains(x) && x != APP_BUNDLE_ID@,
    decreases ids.len(),
{
    if ids.len() > 0 {
        let rest = ids.drop_first();
        lemma_listed_ids_subset(rest, x);
        if listed_ids(ids).contains(x) {
            let k = choose|k: int| 0 <= k < listed_ids(ids).len() && listed_ids(ids)[k] == x;
            if ids[0] == APP_BUNDLE_ID@ {
                assert(listed_ids(rest).contains(x));
            } else if k > 0 {
                assert(listed_ids(rest)[k - 1] == x);
            }
            if rest.contains(x) {
                let j = choose|j: int| 0 <= j < rest.len() && rest[j] == x;
                assert(ids[j + 1] == x);
            }
            assert(ids[0] == ids[0]);
        }
    }
}

/// With every identifier once, the listing is one shorter than the
/// identifiers when the app's own is among them, and as long otherwise.
pub proof fn lemma_listing_count<P>(
    ids: Seq<Seq<char>>,
    record: spec_fn(Seq<char>) -> InstalledBrowser<P>,
)
    requires
        ids.no_duplicates(),
    ensures
        present(candidates_for(ids, record)).len() == ids.len() - (if ids.contains(
            APP_BUNDLE_ID@,
        ) {
            1int
        } else {
            0int
        }),
{
    lemma_listing_order(ids, record);
    lemma_listed_ids_len(ids);
}

/// Length of the listed identifiers.
proof fn lemma_listed_ids_len(ids: Seq<Seq<char>>)
    requires
        ids.no_duplicates(),
    ensures
        listed_ids(ids).len() == ids.len() - (if ids.contains(APP_BUNDLE_ID@) {
            1int
        } else {
            0int
        }),
    decreases ids.len(),
{
    if ids.len() > 0 {
        let rest = ids.drop_first();
        assert(rest.no_duplicates()) by {
            assert forall|a: int, b: int| 0 <= a < rest.len() && 0 <= b < rest.len() && a != b implies rest[a] != rest[b] by {
                assert(rest[a] == ids[a + 1] && rest[b] == ids[b + 1]);
            }
        }
        lemma_listed_ids_len(rest);
        if ids.contains(APP_BUNDLE_ID@) {
            let k = choose|k: int| 0 <= k < ids.len() && ids[k] == APP_BUNDLE_ID@;
            if k == 0 {
                if rest.contains(APP_BUNDLE_ID@) {
                    let j = choose|j: int| 0 <= j < rest.len() && rest[j] == APP_BUNDLE_ID@;
                    assert(ids[j + 1] == APP_BUNDLE_ID@);
                }
            } else {
                assert(rest[k - 1] == APP_BUNDLE_ID@);
                assert(ids[0] != APP_BUNDLE_ID@);
            }
        } else {
            assert(ids[0] != APP_BUNDLE_ID@);
            if rest.contains(APP_BUNDLE_ID@) {
                let j = choose|j: int| 0 <= j < rest.len() && rest[j] == APP_BUNDLE_ID@;
                assert(ids[j + 1] == APP_BUNDLE_ID@);
            }
        }
    }
}

/// The listed identifiers of strictly sorted identifiers are strictly sorted.
pub proof fn lemma_listed_ids_sorted(ids: Seq<Seq<char>>)
    requires
        strictly_sorted(ids),
    ensures
        strictly_sorted(listed_ids(ids)),
    decreases ids.len(),
{
    if ids.len() > 0 {
        let rest = ids.drop_first();
        assert(strictly_sorted(rest)) by {
            assert forall|i: int, j: int| 0 <= i < j < rest.len() implies str_lt(#[trigger] rest[i], #[trigger] rest[j]) by {
                assert(rest[i] == ids[i + 1] && rest[j] == ids[j + 1]);
            }
        }
        lemma_listed_ids_sorted(rest);
        if ids[0] != APP_BUNDLE_ID@ {
            let l = listed_ids(ids);
            let lr = listed_ids(rest);
            assert forall|i: int, j: int| 0 <= i < j < l.len() implies str_lt(#[trigger] l[i], #[trigger] l[j]) by {
                if i == 0 {
                    assert(l[j] == lr[j - 1]);
                    assert(lr.contains(lr[j - 1]));
                    lemma_listed_ids_subset(rest, lr[j - 1]);
                    let m = choose|m: int| 0 <= m < rest.len() && rest[m] == lr[j - 1];
                    assert(ids[m + 1] == rest[m]);
                } else {
                    assert(l[i] == lr[i - 1] && l[j] == lr[j - 1]);
                }
            }
        }
    }
}

/// The listing shows the records of strictly ascending identifiers, each with
/// its icon stored under `icons_root_dir` by identifier; so, when no
/// identifier starts with `/`, no two records share an icon path.
pub proof fn lemma_listing_icons_distinct<P>(
    ids: Seq<Seq<char>>,
    record: spec_fn(Seq<char>) -> InstalledBrowser<P>,
    icons_root_dir: Seq<char>,
)
    requires
        strictly_sorted(ids),
        forall|b: Seq<char>|
            ids.contains(b) && b != APP_BUNDLE_ID@ ==> (#[trigger] record(b)).icon_path@
                == icon_path_spec(icons_root_dir, b),
        forall|i: int| 0 <= i < ids.len() ==> !(ids[i].len() > 0 && #[trigger] ids[i][0] == '/'),
    ensures
        strictly_sorted(listed_ids(ids)),
        present(candidates_for(ids, record)).len() == listed_ids(ids).len(),
        forall|k: int|
            0 <= k < listed_ids(ids).len() ==> (#[trigger] present(
                candidates_for(ids, record),
            )[k]).icon_path@ == icon_path_spec(icons_root_dir, listed_ids(ids)[k]),
        forall|k1: int, k2: int|
            0 <= k1 < k2 < present(candidates_for(ids, record)).len() ==> (#[trigger] present(
                candidates_for(ids, record),
            )[k1]).icon_path@ != (#[trigger] present(candidates_for(ids, record))[k2]).icon_path@,
{
    reveal_strlit(".png");
    lemma_listing_order(ids, record);
    lemma_listed_ids_sorted(ids);
    let l = listed_ids(ids);
    let out = present(candidates_for(ids, record));
    assert forall|k: int| 0 <= k < l.len() implies (#[trigger] out[k]).icon_path@
        == icon_path_spec(icons_root_dir, l[k]) by {
        assert(l.contains(l[k]));
        lemma_listed_ids_subset(ids, l[k]);
    }
    assert forall|k1: int, k2: int| 0 <= k1 < k2 < out.len() implies (#[trigger] out[k1]).icon_path@
        != (#[trigger] out[k2]).icon_path@ by {
        let a = l[k1];
        let b = l[k2];
        assert(out[k1].icon_path@ == icon_path_spec(icons_root_dir, a));
        assert(out[k2].icon_path@ == icon_path_spec(icons_root_dir, b));
        assert(str_lt(a, b));
        lemma_str_lt_irreflexive(a);
        assert(a != b);
        assert(l.contains(a) && l.contains(b));
        lemma_listed_ids_subset(ids, a);
        lemma_listed_ids_subset(ids, b);
        let ia = choose|i: int| 0 <= i < ids.len() && ids[i] == a;
        let ib = choose|i: int| 0 <= i < ids.len() && ids[i] == b;
        assert(!(ids[ia].len() > 0 && ids[ia][0] == '/'));
        assert(!(ids[ib].len() > 0 && ids[ib][0] == '/'));
        let ca = a + ".png"@;
        let cb = b + ".png"@;
        assert(ca[0] != '/');
        assert(cb[0] != '/');
        let pa = icon_path_spec(icons_root_dir, a);
        let pb = icon_path_spec(icons_root_dir, b);
        let base = if icons_root_dir.len() == 0 || icons_root_dir.last() == '/' {
            icons_root_dir
        } else {
            icons_root_dir.push('/')
        };
        assert(pa == base + ca);
        assert(pb == base + cb);
        if pa == pb {
            assert(ca.len() == cb.len());
            assert(a.len() == b.len());
            assert forall|m: int| 0 <= m < a.len() implies a[m] == b[m] by {
                assert(pa[base.len() + m] == a[m]);
                assert(pb[base.len() + m] == b[m]);
            }
            assert(a =~= b);
        }
    }
}

} // verus!
