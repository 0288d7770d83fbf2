//! Self-update decisions: which release tag this build carries, and what
//! to do with the GitHub "latest release" answer, read with a small
//! string scan rather than a JSON parser.

use vstd::prelude::*;
use crate::text::{chars_of, find, find_in, push_str, str_eq, string_of_range, trim_start,
    trim_start_range};

verus! {

/// The release tag of this build: the tag the build was given (`TAG`,
/// passed on as `build_tag`), or `dev` for a build given none.
pub fn current_tag(build_tag: Option<&'static str>) -> (t: &'static str)
    ensures
        t@ == (match build_tag {
            Some(x) => x@,
            None => "dev"@,
        }),
{
    match build_tag {
        Some(x) => x,
        None => "dev",
    }
}

/// The release API of the project.
pub const API: &'static str = "https://api.github.com/repos/zamkara/wifl/releases/latest";

/// The string value of the first `"key":` in `json`: after the marker and
/// any whitespace there must be a `"`, and the value runs to the next `"`
/// (escapes are not interpreted).
pub open spec fn spec_json_str(json: Seq<char>, key: Seq<char>) -> Option<Seq<char>> {
    let marker = seq!['"'] + key + seq!['"', ':'];
    match find(json, marker) {
        None => None,
        Some(p) => {
            let rest = trim_start(json.skip(p + marker.len()));
            if rest.len() > 0 && rest[0] == '"' {
                let inner = rest.drop_first();
                match find(inner, seq!['"']) {
                    Some(e) => Some(inner.take(e)),
                    None => None,
                }
            } else {
                None
            }
        },
    }
}

/// [`spec_json_str`] of `cs[lo..]`.
fn json_str_from(cs: &[char], lo: usize, key: &str) -> (r: Option<String>)
    requires
        lo <= cs@.len(),
    ensures
        match r {
            Some(v) => spec_json_str(cs@.skip(lo as int), key@) == Some(v@),
            None => spec_json_str(cs@.skip(lo as int), key@) is None,
        },
{
    let n = cs.len();
    let ghost json = cs@.skip(lo as int);
    assert(json =~= cs@.subrange(lo as int, n as int));
    let k = chars_of(key);
    let mut marker: Vec<char> = Vec::new();
    marker.push('"');
    let mut i: usize = 0;
    while i < k.len()
        invariant
            i <= k@.len(),
            marker@ == seq!['"'] + k@.take(i as int),
        decreases k@.len() - i,
    {
        marker.push(k[i]);
        assert(seq!['"'] + k@.take(i + 1) =~= (seq!['"'] + k@.take(i as int)).push(k@[i as int]));
        i = i + 1;
    }
    marker.push('"');
    marker.push(':');
    assert(k@.take(k@.len() as int) =~= k@);
    assert(marker@ =~= seq!['"'] + key@ + seq!['"', ':']);
    let p = match find_in(cs, lo, n, marker.as_slice()) {
        Some(p) => p,
        None => {
            return None;
        },
    };
    proof {
        crate::text::lemma_find_from(json, marker@, 0);
    }
    let start = lo + p + marker.len();
    assert(json.skip(p + marker@.len()) =~= cs@.subrange(start as int, n as int));
    let a = trim_start_range(cs, start, n);
    let ghost rest = cs@.subrange(a as int, n as int);
    if a == n || cs[a] != '"' {
        return None;
    }
    assert(rest.drop_first() =~= cs@.subrange(a + 1, n as int));
    let mut q: Vec<char> = Vec::new();
    q.push('"');
    assert(q@ =~= seq!['"']);
    let e = match find_in(cs, a + 1, n, q.as_slice()) {
        Some(e) => e,
        None => {
            return None;
        },
    };
    proof {
        crate::text::lemma_find_from(rest.drop_first(), seq!['"'], 0);
    }
    assert(rest.drop_first().take(e as int) =~= cs@.subrange(a + 1, a + 1 + e));
    Some(string_of_range(cs, a + 1, a + 1 + e))
}

/// The string value of `"key":` in `json` (see [`spec_json_str`]).
pub fn json_str(json: &str, key: &str) -> (r: Option<String>)
    ensures
        match r {
            Some(v) => spec_json_str(json@, key@) == Some(v@),
            None => spec_json_str(json@, key@) is None,
        },
{
    let cs = chars_of(json);
    assert(cs@.skip(0) =~= cs@);
    json_str_from(cs.as_slice(), 0, key)
}

/// The download URL of release asset `name`: the first
/// `"browser_download_url"` value after the first `"name":"<name>"`.
pub open spec fn spec_asset_url(json: Seq<char>, name: Seq<char>) -> Option<Seq<char>> {
    let marker = "\"name\":\""@ + name + "\""@;
    match find(json, marker) {
        None => None,
        Some(p) => spec_json_str(json.skip(p), "browser_download_url"@),
    }
}

/// The download URL of release asset `name` (see [`spec_asset_url`]).
pub fn asset_url(json: &str, name: &str) -> (r: Option<String>)
    ensures
        match r {
            Some(v) => spec_asset_url(json@, name@) == Some(v@),
            None => spec_asset_url(json@, name@) is None,
        },
{
    let cs = chars_of(json);
    let n = cs.len();
    let mut m = String::new();
    push_str(&mut m, "\"name\":\"");
    push_str(&mut m, name);
    push_str(&mut m, "\"");
    let marker = chars_of(m.as_str());
    assert(cs@.subrange(0, n as int) =~= cs@);
    let p = match find_in(cs.as_slice(), 0, n, marker.as_slice()) {
        Some(p) => p,
        None => {
            return None;
        },
    };
    proof {
        crate::text::lemma_find_from(cs@, marker@, 0);
    }
    json_str_from(cs.as_slice(), p, "browser_download_url")
}

// ---------------------------------------------------------------------------
// The update decision
// ---------------------------------------------------------------------------

/// What to do once the latest release is known.
#[derive(Debug)]
pub enum UpdatePlan {
    /// The answer names no `tag_name`.
    MissingTag,
    /// The latest release is this build's.
    UpToDate(String),
    /// The latest release has no asset for this target.
    MissingAsset { asset: String, tag: String },
    /// Download `url` and replace the running binary with it.
    Download { tag: String, url: String },
}

/// The name of the release asset built for `target`.
pub open spec fn asset_name(target: Seq<char>) -> Seq<char> {
    "wifl-"@ + target
}

/// Whether `p` is the plan for build `current` of `target` given the release
/// answer `body`.
pub open spec fn is_update_plan(p: UpdatePlan, current: Seq<char>, target: Seq<char>, body: Seq<
    char,
>) -> bool {
    match spec_json_str(body, "tag_name"@) {
        None => p is MissingTag,
        Some(latest) => if latest == current {
            p matches UpdatePlan::UpToDate(t) && t@ == latest
        } else {
            match spec_asset_url(body, asset_name(target)) {
                None => p matches UpdatePlan::MissingAsset { asset, tag } && asset@ == asset_name(
                    target,
                ) && tag@ == latest,
                Some(url) => p matches UpdatePlan::Download { tag, url: u } && tag@ == latest
                    && u@ == url,
            }
        },
    }
}

/// Whether a build with tag `tag` can update itself: builds without a
/// release tag (`dev`) cannot.
pub fn can_update(tag: &str) -> (b: bool)
    ensures
        b == (tag@ != "dev"@),
{
    !str_eq(tag, "dev")
}

/// Decides what to do with the latest-release answer `body` for build
/// `current` of `target`.
pub fn plan_update(current: &str, target: &str, body: &str) -> (p: UpdatePlan)
    ensures
        is_update_plan(p, current@, target@, body@),
{
    let latest = match json_str(body, "tag_name") {
        Some(t) => t,
        None => {
            return UpdatePlan::MissingTag;
        },
    };
    if str_eq(latest.as_str(), current) {
        return UpdatePlan::UpToDate(latest);
    }
    let mut asset = String::new();
    push_str(&mut asset, "wifl-");
    push_str(&mut asset, target);
    match asset_url(body, asset.as_str()) {
        Some(url) => UpdatePlan::Download { tag: latest, url },
        None => UpdatePlan::MissingAsset { asset, tag: latest },
    }
}

} // verus!
