//! API-key authentication and authorization.
//!
//! Keys carry a scope set. Routes declare a required scope; a request is let
//! through, refused as unauthenticated, or refused as forbidden.
use vstd::prelude::*;
use std::collections::HashMap;
use crate::text::{owned, push_str, str_eq, string_views, trim, trim_str, chars_of};

verus! {

broadcast use vstd::string::group_string_axioms;

/// A single API key entry as stored in the keys file.
#[derive(Debug, Clone)]
pub struct ApiKey {
    pub token: String,
    pub scopes: Vec<String>,
}

/// On-disk format for the API-keys file: keys by name.
#[derive(Debug, Clone)]
pub struct ApiKeysFile {
    pub keys: HashMap<String, ApiKey>,
}

/// Errors returned by [`AuthKeys::check`].
#[derive(Debug, Clone, Copy, PartialEq, Eq, Structural)]
pub enum AuthError {
    Missing,
    Invalid,
    Forbidden,
}

#[derive(Debug, Clone)]
struct ApiKeyEntry {
    token: String,
    name: String,
    scopes: Vec<String>,
}

/// Runtime representation of loaded API keys.
#[derive(Debug, Clone)]
pub struct AuthKeys {
    entries: Vec<ApiKeyEntry>,
    pub require_auth: bool,
}

/// What `str::to_lowercase` returns for `s`.
pub uninterp spec fn to_lower(s: Seq<char>) -> Seq<char>;

/// `str::to_lowercase`: the Unicode lower-case mapping of `s`. Its result is
/// given the name `to_lower`; the mapping itself is stated only for an
/// all-ASCII text, where each of `A`..`Z` becomes its lower-case letter and
/// every other character stays.
#[verifier::external_body]
pub(crate) fn lowercase(s: &str) -> (r: String)
    ensures
        r@ == to_lower(s@),
        crate::validation::is_ascii_text(s@) ==> r@ == s@.map_values(|c: char| crate::validation::ascii_lower(c)),
{
    s.to_lowercase()
}

/// `HashMap::into_iter`, collected: every entry of the map once, in an order
/// that the map does not fix.
#[verifier::external_body]
fn map_entries(m: HashMap<String, ApiKey>) -> (r: Vec<(String, ApiKey)>)
    ensures
        r@.len() == m@.len(),
        forall|i: int| 0 <= i < r@.len() ==> m@.contains_key(#[trigger] r@[i].0) && m@[r@[i].0] == r@[i].1,
        forall|i: int, j: int| 0 <= i < j < r@.len() ==> #[trigger] r@[i].0 != #[trigger] r@[j].0,
        forall|k: String| #[trigger] m@.contains_key(k) ==> exists|i: int| 0 <= i < r@.len() && #[trigger] r@[i].0 == k,
{
    m.into_iter().collect()
}

/// Scopes of a key as they are kept: lower-cased.
pub open spec fn lowered(scopes: Seq<String>) -> Set<Seq<char>> {
    Set::new(|s: Seq<char>| exists|i: int| 0 <= i < scopes.len() && s == to_lower(#[trigger] scopes[i]@))
}

/// The keys that a list of named entries gives, by token: a later entry with
/// the same token replaces an earlier one. `None` when some entry has an
/// empty token.
pub open spec fn keys_of(entries: Seq<(String, ApiKey)>) -> Map<Seq<char>, Set<Seq<char>>>
    decreases entries.len(),
{
    if entries.len() == 0 {
        Map::empty()
    } else {
        let e = entries.last();
        keys_of(entries.drop_last()).insert(e.1.token@, lowered(e.1.scopes@))
    }
}

/// The first entry, in order, whose token is empty.
pub open spec fn first_empty_token(entries: Seq<(String, ApiKey)>) -> Option<int> {
    if exists|i: int| 0 <= i < entries.len() && (#[trigger] entries[i]).1.token@.len() == 0 {
        Some(choose|i: int| 0 <= i < entries.len() && (#[trigger] entries[i]).1.token@.len() == 0
            && forall|j: int| 0 <= j < i ==> (#[trigger] entries[j]).1.token@.len() != 0)
    } else {
        None
    }
}

pub open spec fn empty_token_message(name: Seq<char>) -> Seq<char> {
    "API key '"@ + name + "' has empty token"@
}

impl AuthKeys {
    /// The scopes of each key, by token.
    pub closed spec fn keys(&self) -> Map<Seq<char>, Set<Seq<char>>> {
        Map::new(
            |t: Seq<char>| exists|i: int| 0 <= i < self.entries@.len() && (#[trigger] self.entries@[i]).token@ == t,
            |t: Seq<char>| {
                let i = choose|i: int| 0 <= i < self.entries@.len() && (#[trigger] self.entries@[i]).token@ == t;
                string_views(self.entries@[i].scopes@).to_set()
            },
        )
    }

    /// Whether requests must carry a key.
    pub closed spec fn auth_required(&self) -> bool {
        self.require_auth
    }

    /// Tokens are distinct.
    pub closed spec fn wf(&self) -> bool {
        forall|i: int, j: int| 0 <= i < j < self.entries@.len() ==> (#[trigger] self.entries@[i]).token@ != (#[trigger] self.entries@[j]).token@
    }
}

/// The token an `Authorization` value carries: after a `Bearer ` or
/// `bearer ` prefix when there is one, trimmed.
pub open spec fn bearer_token(a: Seq<char>) -> Seq<char> {
    if a.len() >= 7 && a.take(7) == "Bearer "@ {
        trim(a.skip(7))
    } else if a.len() >= 7 && a.take(7) == "bearer "@ {
        trim(a.skip(7))
    } else {
        trim(a)
    }
}

/// The answer to a request with `authorization` for a route that needs
/// `scope`, given the keys by token and whether authentication is required.
pub open spec fn spec_check(
    keys: Map<Seq<char>, Set<Seq<char>>>,
    require_auth: bool,
    authorization: Seq<char>,
    scope: Seq<char>,
) -> Result<(), AuthError> {
    if !require_auth && keys.dom() =~= Set::empty() {
        Ok(())
    } else {
        let t = bearer_token(authorization);
        if !keys.contains_key(t) {
            Err(AuthError::Invalid)
        } else if keys[t].contains("admin"@) || keys[t].contains(scope) {
            Ok(())
        } else {
            Err(AuthError::Forbidden)
        }
    }
}

fn contains_str(v: &Vec<String>, x: &str) -> (b: bool)
    ensures
        b == string_views(v@).contains(x@),
{
    let mut i: usize = 0;
    while i < v.len()
        invariant
            i <= v@.len(),
            forall|k: int| 0 <= k < i ==> v@[k]@ != x@,
        decreases v@.len() - i,
    {
        if str_eq(v[i].as_str(), x) {
            assert(string_views(v@)[i as int] == x@);
            return true;
        }
        i = i + 1;
    }
    proof {
        if string_views(v@).contains(x@) {
            let k = choose|k: int| 0 <= k < string_views(v@).len() && string_views(v@)[k] == x@;
            assert(v@[k]@ == x@);
        }
    }
    false
}

fn starts_with_lit(cs: &Vec<char>, p: &str) -> (b: bool)
    ensures
        b == (cs@.len() >= p@.len() && cs@.take(p@.len() as int) == p@),
{
    let pc = chars_of(p);
    if cs.len() < pc.len() {
        return false;
    }
    let mut i: usize = 0;
    while i < pc.len()
        invariant
            i <= pc@.len() <= cs@.len(),
            pc@ == p@,
            forall|k: int| 0 <= k < i ==> cs@[k] == pc@[k],
        decreases pc@.len() - i,
    {
        if cs[i] != pc[i] {
            assert(cs@.take(pc@.len() as int)[i as int] != p@[i as int]);
            return false;
        }
        i = i + 1;
    }
    assert(cs@.take(pc@.len() as int) =~= p@);
    true
}

impl AuthKeys {
    /// Build the keys from an in-memory map, every key of it kept. Every
    /// token must be non-empty.
    pub fn from_map(keys: HashMap<String, ApiKey>, require_auth: bool) -> (r: AuthKeys)
        requires
            forall|k: String| #[trigger] keys@.contains_key(k) ==> keys@[k].token@.len() != 0,
        ensures
            r.wf(),
            exists|entries: Seq<(String, ApiKey)>| {
                &&& entries.len() == keys@.len()
                &&& forall|i: int| 0 <= i < entries.len() ==> keys@.contains_key(#[trigger] entries[i].0) && keys@[entries[i].0] == entries[i].1
                &&& forall|k: String| #[trigger] keys@.contains_key(k) ==> exists|i: int| 0 <= i < entries.len() && #[trigger] entries[i].0 == k
                &&& r.keys() == keys_of(entries)
            },
            r.auth_required() == require_auth,
    {
        let file = ApiKeysFile { keys };
        let r = Self::from_file(file, require_auth);
        match r {
            Ok(k) => k,
            Err(_) => {
                proof {
                    assert(false);
                }
                AuthKeys { entries: Vec::new(), require_auth: false }
            },
        }
    }

    /// Build the keys from the parsed keys file. A key with an empty token is
    /// refused, naming the first such key met.
    pub fn from_file(file: ApiKeysFile, require_auth: bool) -> (r: Result<AuthKeys, String>)
        ensures
            exists|entries: Seq<(String, ApiKey)>| {
                &&& entries.len() == file.keys@.len()
                &&& forall|i: int| 0 <= i < entries.len() ==> file.keys@.contains_key(#[trigger] entries[i].0) && file.keys@[entries[i].0] == entries[i].1
                &&& forall|k: String| #[trigger] file.keys@.contains_key(k) ==> exists|i: int| 0 <= i < entries.len() && #[trigger] entries[i].0 == k
                &&& match first_empty_token(entries) {
                    Some(i) => r is Err && r->Err_0@ == empty_token_message(entries[i].0@),
                    None => r is Ok && r->Ok_0.wf() && r->Ok_0.keys() == keys_of(entries)
                        && r->Ok_0.auth_required() == require_auth,
                }
            },
            (forall|k: String| #[trigger] file.keys@.contains_key(k) ==> file.keys@[k].token@.len() != 0) <==> r is Ok,
    {
        let ghost m = file.keys@;
        let entries = map_entries(file.keys);
        let mut out: Vec<ApiKeyEntry> = Vec::new();
        let mut i: usize = 0;
        while i < entries.len()
            invariant
                i <= entries@.len(),
                m == file.keys@,
                entries@.len() == m.len(),
                forall|k: String| #[trigger] m.contains_key(k) ==> exists|x: int| 0 <= x < entries@.len() && #[trigger] entries@[x].0 == k,
                forall|k: int| 0 <= k < entries@.len() ==> m.contains_key(#[trigger] entries@[k].0) && m[entries@[k].0] == entries@[k].1,
                forall|k: int| 0 <= k < i ==> (#[trigger] entries@[k]).1.token@.len() != 0,
                forall|a: int, b: int| 0 <= a < b < out@.len() ==> (#[trigger] out@[a]).token@ != (#[trigger] out@[b]).token@,
                keys_of(entries@.take(i as int)) =~= Map::new(
                    |t: Seq<char>| exists|x: int| 0 <= x < out@.len() && (#[trigger] out@[x]).token@ == t,
                    |t: Seq<char>| {
                        let x = choose|x: int| 0 <= x < out@.len() && (#[trigger] out@[x]).token@ == t;
                        string_views(out@[x].scopes@).to_set()
                    },
                ),
            decreases entries@.len() - i,
        {
            let name = &entries[i].0;
            let key = &entries[i].1;
            if key.token.as_str().is_empty() {
                let mut msg = owned("API key '");
                push_str(&mut msg, name.as_str());
                push_str(&mut msg, "' has empty token");
                proof {
                    let fe = first_empty_token(entries@);
                    assert(entries@[i as int].1.token@.len() == 0);
                    let c = choose|c: int| 0 <= c < entries@.len() && (#[trigger] entries@[c]).1.token@.len() == 0
                        && forall|j: int| 0 <= j < c ==> (#[trigger] entries@[j]).1.token@.len() != 0;
                    assert(0 <= c < entries@.len() && entries@[c].1.token@.len() == 0
                        && forall|j: int| 0 <= j < c ==> (#[trigger] entries@[j]).1.token@.len() != 0);
                    if c < i {
                        assert(entries@[c].1.token@.len() != 0);
                    }
                    if c > i {
                        assert(entries@[i as int].1.token@.len() != 0);
                    }
                    assert(fe == Some(i as int));
                    assert(file.keys@.contains_key(entries@[i as int].0));
                    assert(file.keys@[entries@[i as int].0] == entries@[i as int].1);
                }
                return Err(msg);
            }
            let mut scopes: Vec<String> = Vec::new();
            let mut s: usize = 0;
            while s < key.scopes.len()
                invariant
                    s <= key.scopes@.len(),
                    scopes@.len() == s,
                    forall|k: int| 0 <= k < s ==> (#[trigger] scopes@[k])@ == to_lower(key.scopes@[k]@),
                decreases key.scopes@.len() - s,
            {
                let l = lowercase(key.scopes[s].as_str());
                scopes.push(l);
                s = s + 1;
            }
            proof {
                assert forall|t: Seq<char>| string_views(scopes@).to_set().contains(t) <==> lowered(key.scopes@).contains(t) by {
                    if string_views(scopes@).contains(t) {
                        let k = choose|k: int| 0 <= k < string_views(scopes@).len() && string_views(scopes@)[k] == t;
                        assert(t == to_lower(key.scopes@[k]@));
                    }
                    if lowered(key.scopes@).contains(t) {
                        let k = choose|k: int| 0 <= k < key.scopes@.len() && t == to_lower(#[trigger] key.scopes@[k]@);
                        assert(string_views(scopes@)[k] == t);
                    }
                }
                assert(string_views(scopes@).to_set() =~= lowered(key.scopes@));
            }
            let entry = ApiKeyEntry { token: key.token.clone(), name: name.clone(), scopes };
            // Replace an entry with the same token, else add one.
            let mut j: usize = 0;
            let mut found = false;
            while j < out.len()
                invariant_except_break
                    !found,
                invariant
                    j <= out@.len(),
                    forall|k: int| 0 <= k < j ==> (#[trigger] out@[k]).token@ != key.token@,
                ensures
                    j <= out@.len(),
                    found ==> j < out@.len() && out@[j as int].token@ == key.token@,
                    !found ==> j == out@.len(),
                    forall|k: int| 0 <= k < j ==> (#[trigger] out@[k]).token@ != key.token@,
                decreases out@.len() - j,
            {
                if out[j].token == key.token {
                    found = true;
                    break;
                }
                j = j + 1;
            }
            let ghost old_out = out@;
            let ghost prev = keys_of(entries@.take(i as int));
            if found {
                out.set(j, entry);
            } else {
                out.push(entry);
            }
            proof {
                assert(entries@.take(i + 1).drop_last() =~= entries@.take(i as int));
                assert(entries@.take(i + 1).last() == entries@[i as int]);
                assert forall|a: int, b: int| 0 <= a < b < out@.len() implies (#[trigger] out@[a]).token@ != (#[trigger] out@[b]).token@ by {
                    if found {
                        if a != j && b != j {
                            assert(out@[a] == old_out[a] && out@[b] == old_out[b]);
                        } else if a == j {
                            assert(old_out[a].token@ == key.token@);
                            assert(out@[b] == old_out[b]);
                        } else {
                            assert(old_out[b].token@ == key.token@);
                            assert(out@[a] == old_out[a]);
                        }
                    } else {
                        if b < old_out.len() {
                            assert(out@[a] == old_out[a] && out@[b] == old_out[b]);
                        } else {
                            assert(out@[a] == old_out[a]);
                        }
                    }
                }
                let newmap = Map::new(
                    |t: Seq<char>| exists|x: int| 0 <= x < out@.len() && (#[trigger] out@[x]).token@ == t,
                    |t: Seq<char>| {
                        let x = choose|x: int| 0 <= x < out@.len() && (#[trigger] out@[x]).token@ == t;
                        string_views(out@[x].scopes@).to_set()
                    },
                );
                let want = prev.insert(key.token@, lowered(key.scopes@));
                assert forall|t: Seq<char>| newmap.contains_key(t) <==> want.contains_key(t) by {
                    if newmap.contains_key(t) {
                        let x = choose|x: int| 0 <= x < out@.len() && (#[trigger] out@[x]).token@ == t;
                        if t != key.token@ {
                            assert(x != j || !found);
                            if !found {
                                assert(x < old_out.len());
                            }
                            assert(out@[x] == old_out[x]);
                            assert(prev.contains_key(t));
                        }
                    }
                    if want.contains_key(t) {
                        if t == key.token@ {
                            if found {
                                assert(out@[j as int].token@ == t);
                            } else {
                                assert(out@[old_out.len() as int].token@ == t);
                            }
                        } else {
                            assert(prev.contains_key(t));
                            let x = choose|x: int| 0 <= x < old_out.len() && (#[trigger] old_out[x]).token@ == t;
                            if found {
                                assert(x != j);
                            }
                            assert(out@[x] == old_out[x]);
                        }
                    }
                }
                assert forall|t: Seq<char>| newmap.contains_key(t) implies newmap[t] == want[t] by {
                    let x = choose|x: int| 0 <= x < out@.len() && (#[trigger] out@[x]).token@ == t;
                    if t == key.token@ {
                        if found {
                            assert(out@[j as int].token@ == t);
                            assert(x == j);
                        } else {
                            assert(out@[old_out.len() as int].token@ == t);
                            assert(x == old_out.len());
                        }
                    } else {
                        let y = choose|y: int| 0 <= y < old_out.len() && (#[trigger] old_out[y]).token@ == t;
                        if !found {
                            assert(x < old_out.len());
                        } else {
                            assert(x != j);
                        }
                        assert(out@[x] == old_out[x]);
                        assert(old_out[y].token@ == t);
                        assert(x == y);
                    }
                }
                assert(newmap =~= want);
            }
            i = i + 1;
        }
        let r = AuthKeys { entries: out, require_auth };
        proof {
            assert(entries@.take(entries@.len() as int) =~= entries@);
            assert(first_empty_token(entries@) is None);
            assert forall|k: String| #[trigger] file.keys@.contains_key(k) implies file.keys@[k].token@.len() != 0 by {
                let x = choose|x: int| 0 <= x < entries@.len() && #[trigger] entries@[x].0 == k;
                assert(entries@[x].1.token@.len() != 0);
            }
            assert(r.keys() =~= keys_of(entries@));
            if entries@.len() > 0 {
                let t = entries@.last().1.token@;
                assert(keys_of(entries@).contains_key(t));
                let x = choose|x: int| 0 <= x < out@.len() && (#[trigger] out@[x]).token@ == t;
                assert(out@.len() > 0);
            } else {
                assert(out@.len() == 0 || keys_of(entries@).contains_key(out@[0].token@));
            }
        }
        Ok(r)
    }
}

fn chars_after(cs: &Vec<char>, from: usize) -> (r: String)
    requires
        from <= cs@.len(),
    ensures
        r@ == cs@.skip(from as int),
{
    let mut out: Vec<char> = Vec::new();
    let mut k: usize = from;
    while k < cs.len()
        invariant
            from <= k <= cs@.len(),
            out@ == cs@.subrange(from as int, k as int),
        decreases cs@.len() - k,
    {
        out.push(cs[k]);
        proof { assert(cs@.subrange(from as int, k + 1) =~= out@); }
        k = k + 1;
    }
    assert(out@ =~= cs@.skip(from as int));
    crate::text::string_from(&out)
}

/// The token of an `Authorization` header value.
fn bearer(authorization: &str) -> (r: String)
    ensures
        r@ == bearer_token(authorization@),
{
    let cs = chars_of(authorization);
    proof {
        reveal_strlit("Bearer ");
        reveal_strlit("bearer ");
    }
    if starts_with_lit(&cs, "Bearer ") || starts_with_lit(&cs, "bearer ") {
        let rest = chars_after(&cs, 7);
        trim_str(rest.as_str())
    } else {
        trim_str(authorization)
    }
}

impl AuthKeys {
    /// Validate an `Authorization` header value against a required scope.
    pub fn check(&self, authorization: &str, required_scope: &str) -> (r: Result<(), AuthError>)
        requires
            self.wf(),
        ensures
            r == spec_check(self.keys(), self.auth_required(), authorization@, required_scope@),
    {
        if !self.require_auth && self.entries.len() == 0 {
            proof {
                assert(self.keys().dom() =~= Set::empty());
            }
            return Ok(());
        }
        proof {
            if self.entries@.len() > 0 {
                assert(self.keys().dom().contains(self.entries@[0].token@));
            }
        }
        let token = bearer(authorization);
        let mut x: usize = 0;
        while x < self.entries.len()
            invariant
                x <= self.entries@.len(),
                forall|k: int| 0 <= k < x ==> (#[trigger] self.entries@[k]).token@ != token@,
            ensures
                x <= self.entries@.len(),
                forall|k: int| 0 <= k < x ==> (#[trigger] self.entries@[k]).token@ != token@,
                x < self.entries@.len() ==> self.entries@[x as int].token@ == token@,
            decreases self.entries@.len() - x,
        {
            if str_eq(self.entries[x].token.as_str(), token.as_str()) {
                break;
            }
            x = x + 1;
        }
        if x == self.entries.len() {
            proof {
                assert(!self.keys().contains_key(token@));
            }
            return Err(AuthError::Invalid);
        }
        let scopes = &self.entries[x].scopes;
        proof {
            assert(self.entries@[x as int].token@ == token@);
            assert(self.keys().contains_key(token@));
            let c = choose|i: int| 0 <= i < self.entries@.len() && (#[trigger] self.entries@[i]).token@ == token@;
            assert(c == x);
            reveal_strlit("admin");
        }
        if contains_str(scopes, "admin") || contains_str(scopes, required_scope) {
            Ok(())
        } else {
            Err(AuthError::Forbidden)
        }
    }
}

/// The scope a route needs; `None` for a public route.
pub open spec fn spec_required_scope(path: Seq<char>) -> Option<Seq<char>> {
    if path == "/health"@ || path == "/openapi.json"@ || path == "/docs"@ || path == "/ready"@ || path == "/metrics"@ {
        None
    } else if path == "/vee/submit"@ || path == "/vee/cancel"@ || path == "/vee/diff"@ || path == "/vee/merge"@ || path == "/vee/reject"@ {
        Some("submit"@)
    } else if path == "/vee/odin/model"@ || path == "/admin/backup"@ || path == "/admin/restore"@ {
        Some("admin"@)
    } else {
        Some("read"@)
    }
}

/// Returns the required scope for a route, or `None` if the route is public.
/// Read-only queries, and every route not listed, need `read`.
pub fn required_scope_for_path(path: &str) -> (r: Option<&'static str>)
    ensures
        match r {
            Some(s) => spec_required_scope(path@) == Some(s@),
            None => spec_required_scope(path@) is None,
        },
{
    if str_eq(path, "/health") || str_eq(path, "/openapi.json") || str_eq(path, "/docs")
        || str_eq(path, "/ready") || str_eq(path, "/metrics") {
        None
    } else if str_eq(path, "/vee/submit") || str_eq(path, "/vee/cancel") || str_eq(path, "/vee/diff")
        || str_eq(path, "/vee/merge") || str_eq(path, "/vee/reject") {
        Some("submit")
    } else if str_eq(path, "/vee/odin/model") || str_eq(path, "/admin/backup") || str_eq(path, "/admin/restore") {
        Some("admin")
    } else {
        Some("read")
    }
}

/// A key with the `admin` scope is let through on every route.
pub proof fn lemma_admin_passes_every_scope(
    keys: Map<Seq<char>, Set<Seq<char>>>,
    require_auth: bool,
    authorization: Seq<char>,
    scope: Seq<char>,
)
    requires
        keys.contains_key(bearer_token(authorization)),
        keys[bearer_token(authorization)].contains("admin"@),
    ensures
        spec_check(keys, require_auth, authorization, scope) is Ok,
{
}

/// A request is refused as forbidden only for a known key that lacks both
/// the route's scope and `admin`; it is refused as invalid only for an
/// unknown key; it is never refused as missing.
pub proof fn lemma_check_outcomes(
    keys: Map<Seq<char>, Set<Seq<char>>>,
    require_auth: bool,
    authorization: Seq<char>,
    scope: Seq<char>,
)
    ensures
        spec_check(keys, require_auth, authorization, scope) != Err::<(), AuthError>(AuthError::Missing),
        spec_check(keys, require_auth, authorization, scope) == Err::<(), AuthError>(AuthError::Forbidden) ==> {
            let t = bearer_token(authorization);
            keys.contains_key(t) && !keys[t].contains(scope) && !keys[t].contains("admin"@)
        },
        spec_check(keys, require_auth, authorization, scope) == Err::<(), AuthError>(AuthError::Invalid) ==> !keys.contains_key(bearer_token(authorization)),
{
}

/// With authentication required and no keys configured, every request is
/// refused as invalid; with it not required and no keys, every request passes.
pub proof fn lemma_no_keys(require_auth: bool, authorization: Seq<char>, scope: Seq<char>)
    ensures
        require_auth ==> spec_check(Map::empty(), require_auth, authorization, scope) == Err::<(), AuthError>(AuthError::Invalid),
        !require_auth ==> spec_check(Map::empty(), require_auth, authorization, scope) is Ok,
{
    assert(Map::<Seq<char>, Set<Seq<char>>>::empty().dom() =~= Set::empty());
}

} // verus!
