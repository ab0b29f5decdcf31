//! Deciding whether the app is the default web browser, and what to register
//! to make it so.

use vstd::prelude::*;
use vstd::string::*;
use crate::browsers::APP_BUNDLE_ID;

verus! {

/// The secure web scheme.
pub const HTTPS_SCHEME: &'static str = "https";

/// The plain web scheme.
pub const HTTP_SCHEME: &'static str = "http";

/// The bundle identifiers that LaunchServices reports as default handlers of
/// the two web schemes.
pub struct DefaultHandlers {
    pub https: String,
    pub http: String,
}

/// Making `bundle_id` the default handler of `scheme`.
pub struct HandlerAssignment {
    pub scheme: String,
    pub bundle_id: String,
}

/// The outcome of asking to become the default browser: whether the app
/// already was, and the registrations to perform.
pub struct DefaultBrowserChange {
    pub was_default: bool,
    pub assignments: Vec<HandlerAssignment>,
}

/// The app is the default browser when it handles both web schemes.
pub open spec fn is_default_spec(https: Seq<char>, http: Seq<char>) -> bool {
    https == APP_BUNDLE_ID@ && http == APP_BUNDLE_ID@
}

/// Scheme and bundle identifier of each registration.
pub open spec fn assignment_views(s: Seq<HandlerAssignment>) -> Seq<(Seq<char>, Seq<char>)> {
    s.map_values(|a: HandlerAssignment| (a.scheme@, a.bundle_id@))
}

/// Whether the app is already the default, and which registrations it makes
/// otherwise: the app for `https`, then for `http`.
pub open spec fn set_default_plan(https: Seq<char>, http: Seq<char>) -> (bool, Seq<
    (Seq<char>, Seq<char>),
>) {
    if is_default_spec(https, http) {
        (true, Seq::empty())
    } else {
        (false, seq![(HTTPS_SCHEME@, APP_BUNDLE_ID@), (HTTP_SCHEME@, APP_BUNDLE_ID@)])
    }
}

/// The default handlers `(https, http)` after one registration.
pub open spec fn apply_assignment(handlers: (Seq<char>, Seq<char>), a: (Seq<char>, Seq<char>)) -> (
    Seq<char>,
    Seq<char>,
) {
    if a.0 == HTTPS_SCHEME@ {
        (a.1, handlers.1)
    } else if a.0 == HTTP_SCHEME@ {
        (handlers.0, a.1)
    } else {
        handlers
    }
}

/// The default handlers `(https, http)` after the registrations, in order.
pub open spec fn apply_assignments(
    handlers: (Seq<char>, Seq<char>),
    s: Seq<(Seq<char>, Seq<char>)>,
) -> (Seq<char>, Seq<char>)
    decreases s.len(),
{
    if s.len() == 0 {
        handlers
    } else {
        apply_assignments(apply_assignment(handlers, s[0]), s.drop_first())
    }
}

/// Whether the app is the default handler of both web schemes.
pub fn is_default_web_browser(handlers: &DefaultHandlers) -> (r: bool)
    ensures
        r == is_default_spec(handlers.https@, handlers.http@),
        r == (handlers.https@ == "software.Browsers"@ && handlers.http@ == "software.Browsers"@),
{
    let app = APP_BUNDLE_ID.to_owned();
    handlers.https == app && handlers.http == app
}

/// Asks to become the default browser: reports whether the app already was
/// (then nothing is to be done), and otherwise registers it for `https` and
/// `http`.
pub fn set_default_web_browser(handlers: &DefaultHandlers) -> (r: DefaultBrowserChange)
    ensures
        r.was_default == set_default_plan(handlers.https@, handlers.http@).0,
        assignment_views(r.assignments@) == set_default_plan(handlers.https@, handlers.http@).1,
        r.was_default == (handlers.https@ == "software.Browsers"@ && handlers.http@
            == "software.Browsers"@),
        r.was_default ==> r.assignments@.len() == 0,
        !r.was_default ==> {
            &&& r.assignments@.len() == 2
            &&& r.assignments@[0].scheme@ == "https"@
            &&& r.assignments@[0].bundle_id@ == "software.Browsers"@
            &&& r.assignments@[1].scheme@ == "http"@
            &&& r.assignments@[1].bundle_id@ == "software.Browsers"@
        },
{
    if is_default_web_browser(handlers) {
        let none: Vec<HandlerAssignment> = Vec::new();
        proof {
            assert(assignment_views(none@) =~= Seq::<(Seq<char>, Seq<char>)>::empty());
        }
        return DefaultBrowserChange { was_default: true, assignments: none };
    }
    let mut assignments: Vec<HandlerAssignment> = Vec::new();
    assignments.push(
        HandlerAssignment { scheme: HTTPS_SCHEME.to_owned(), bundle_id: APP_BUNDLE_ID.to_owned() },
    );
    assignments.push(
        HandlerAssignment { scheme: HTTP_SCHEME.to_owned(), bundle_id: APP_BUNDLE_ID.to_owned() },
    );
    proof {
        assert(assignment_views(assignments@) =~= seq![
            (HTTPS_SCHEME@, APP_BUNDLE_ID@),
            (HTTP_SCHEME@, APP_BUNDLE_ID@),
        ]);
    }
    DefaultBrowserChange { was_default: false, assignments }
}

/// The app is the default browser exactly when both web schemes are handled
/// by its bundle identifier; asking to become the default then registers
/// nothing, and otherwise registers the app for `https` and then `http`.
pub proof fn lemma_default_plan_meaning(https: Seq<char>, http: Seq<char>)
    ensures
        is_default_spec(https, http) <==> (https == "software.Browsers"@ && http
            == "software.Browsers"@),
        set_default_plan(https, http).0 <==> (https == "software.Browsers"@ && http
            == "software.Browsers"@),
        set_default_plan(https, http).0 ==> set_default_plan(https, http).1.len() == 0,
        !set_default_plan(https, http).0 ==> set_default_plan(https, http).1 == seq![
            ("https"@, "software.Browsers"@),
            ("http"@, "software.Browsers"@),
        ],
{
}

/// A registration changes the handler of its own scheme and no other.
pub proof fn lemma_apply_assignment_scheme(
    handlers: (Seq<char>, Seq<char>),
    bundle_id: Seq<char>,
    scheme: Seq<char>,
)
    ensures
        apply_assignment(handlers, ("https"@, bundle_id)) == (bundle_id, handlers.1),
        apply_assignment(handlers, ("http"@, bundle_id)) == (handlers.0, bundle_id),
        scheme != "https"@ && scheme != "http"@ ==> apply_assignment(handlers, (scheme, bundle_id))
            == handlers,
{
    reveal_strlit("https");
    reveal_strlit("http");
    assert("https"@.len() != "http"@.len());
}

/// Registrations take effect one after the other: making those of `a` and
/// then those of `b` is making those of `a + b`; making none changes nothing.
pub proof fn lemma_apply_assignments_in_order(
    handlers: (Seq<char>, Seq<char>),
    a: Seq<(Seq<char>, Seq<char>)>,
    b: Seq<(Seq<char>, Seq<char>)>,
)
    ensures
        apply_assignments(handlers, a + b) == apply_assignments(apply_assignments(handlers, a), b),
        apply_assignments(handlers, Seq::empty()) == handlers,
    decreases a.len(),
{
    if a.len() == 0 {
        assert(a + b =~= b);
    } else {
        assert((a + b).drop_first() =~= a.drop_first() + b);
        assert((a + b)[0] == a[0]);
        lemma_apply_assignments_in_order(apply_assignment(handlers, a[0]), a.drop_first(), b);
    }
}

/// After the registrations that `set_default_web_browser` asks for have been
/// made, the app is the default browser, whatever the handlers were before.
pub proof fn lemma_set_default_makes_default(https: Seq<char>, http: Seq<char>)
    ensures
        ({
            let after = apply_assignments((https, http), set_default_plan(https, http).1);
            is_default_spec(after.0, after.1)
        }),
{
    reveal_strlit("https");
    reveal_strlit("http");
    let plan = set_default_plan(https, http);
    if !is_default_spec(https, http) {
        let s = plan.1;
        let h1 = apply_assignment((https, http), s[0]);
        assert(h1 == (APP_BUNDLE_ID@, http));
        assert(s[1] == (HTTP_SCHEME@, APP_BUNDLE_ID@));
        assert(HTTP_SCHEME@.len() != HTTPS_SCHEME@.len());
        let h2 = apply_assignment(h1, s[1]);
        assert(s.drop_first()[0] == s[1]);
        assert(s.drop_first().drop_first().len() == 0);
        assert(h2 == (APP_BUNDLE_ID@, APP_BUNDLE_ID@));
        assert(apply_assignments((https, http), s) == apply_assignments(h1, s.drop_first()));
        assert(apply_assignments(h1, s.drop_first()) == apply_assignments(h2, s.drop_first().drop_first()));
        assert(apply_assignments(h2, s.drop_first().drop_first()) == h2);
    }
}

/// Asking again once the app is the default changes nothing.
pub proof fn lemma_set_default_idempotent(https: Seq<char>, http: Seq<char>)
    ensures
        ({
            let after = apply_assignments((https, http), set_default_plan(https, http).1);
            set_default_plan(after.0, after.1) == (true, Seq::<(Seq<char>, Seq<char>)>::empty())
        }),
{
    lemma_set_default_makes_default(https, http);
}

} // verus!
