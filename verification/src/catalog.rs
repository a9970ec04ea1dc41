//! Which index is asked, and under which name, kind and branch a directory is indexed.
use vstd::prelude::*;

use crate::outside;
use crate::paths;
use crate::text;

verus! {

/// A directory that is indexed.
pub struct CatalogConfig {
    /// `monorepo` or `folder`.
    pub catalog_type: String,
    pub path: String,
}

// ---------------------------------------------------------------------------
// The index
// ---------------------------------------------------------------------------

/// The address of the index: the one that is set, or the hosted one.
pub fn get_api_url(set: Option<String>) -> (r: String)
    ensures
        r@ == match set {
            Some(u) => u@,
            None => "https://code-index.mcp.pape.house"@,
        },
{
    match set {
        Some(u) => u,
        None => "https://code-index.mcp.pape.house".to_owned(),
    }
}

/// The token for the index: the one that is set, else the one in the token file,
/// without the white space around it.
pub fn get_api_token(set: Option<String>, in_file: Option<String>) -> (r: Result<String, String>)
    ensures
        r is Err <==> set is None && in_file is None,
        r matches Ok(t) ==> t@ == match set {
            Some(s) => s@,
            None => text::trimmed(in_file->Some_0@),
        },
        r matches Err(e) ==> e@
            == "No API token found. Set CODE_INDEX_TOKEN env var or write token to ~/.config/rush-qdrant/token"@,
{
    if let Some(token) = set {
        return Ok(token);
    }
    if let Some(token) = in_file {
        return Ok(text::trim(token.as_str()));
    }
    Err(
        "No API token found. Set CODE_INDEX_TOKEN env var or write token to ~/.config/rush-qdrant/token".to_owned(),
    )
}

// ---------------------------------------------------------------------------
// Branch
// ---------------------------------------------------------------------------

/// The branch that git printed; the main branch where it printed none, or that no
/// branch is checked out.
pub open spec fn branch_printed(printed: Seq<char>) -> Seq<char> {
    let name = text::trimmed(printed);
    if name.len() == 0 || name == "HEAD"@ {
        "main"@
    } else {
        name
    }
}

/// The branch that git printed.
pub fn branch_in(printed: &str) -> (r: String)
    ensures
        r@ == branch_printed(printed@),
{
    let name = text::trim(printed);
    if name.as_str().is_empty() || text::same_text(name.as_str(), "HEAD") {
        "main".to_owned()
    } else {
        name
    }
}

/// The current branch, from what git wrote when it was asked for it; the main branch
/// where git could not be asked.
pub fn current_branch(output: Option<Vec<u8>>) -> (r: String)
    ensures
        r@ == match output {
            Some(bytes) => branch_printed(outside::lossy_text(bytes@)),
            None => "main"@,
        },
        output is Some && vstd::utf8::valid_utf8(output->Some_0@) ==> r@ == branch_printed(
            vstd::utf8::decode_utf8(output->Some_0@),
        ),
{
    match output {
        Some(bytes) => branch_in(outside::text_of_bytes(&bytes).as_str()),
        None => "main".to_owned(),
    }
}

// ---------------------------------------------------------------------------
// Kind
// ---------------------------------------------------------------------------

/// The kind of a directory: a monorepo where it holds a `rush.json`, else a folder.
pub open spec fn catalog_type(has_rush_json: bool) -> Seq<char> {
    if has_rush_json {
        "monorepo"@
    } else {
        "folder"@
    }
}

/// The kind of a directory, from whether it holds a `rush.json`.
pub fn detect_catalog_type(has_rush_json: bool) -> (r: String)
    ensures
        r@ == catalog_type(has_rush_json),
{
    if has_rush_json {
        "monorepo".to_owned()
    } else {
        "folder".to_owned()
    }
}

/// The kind that was asked for, or the detected one where that was left open.
pub fn resolve_catalog_type(asked: String, has_rush_json: bool) -> (r: String)
    ensures
        r@ == if asked@ == "auto"@ {
            catalog_type(has_rush_json)
        } else {
            asked@
        },
{
    if text::same_text(asked.as_str(), "auto") {
        detect_catalog_type(has_rush_json)
    } else {
        asked
    }
}

// ---------------------------------------------------------------------------
// Name
// ---------------------------------------------------------------------------

/// The repository that an address ends in: what follows the last slash, without the
/// endings `.git`.
pub open spec fn repository_in(url: Seq<char>) -> Seq<char> {
    text::after_last(text::without_endings(url, ".git"@), '/')
}

/// The repository that git printed the address of.
pub open spec fn repository_printed(printed: Seq<char>) -> Seq<char> {
    repository_in(text::trimmed(printed))
}

/// The name of a catalog: that of its repository, else that of its directory.
pub open spec fn catalog_called(printed: Option<Seq<char>>, base: Option<Seq<char>>) -> Seq<char> {
    if printed is Some && repository_printed(printed->Some_0).len() > 0 {
        repository_printed(printed->Some_0)
    } else {
        match base {
            Some(b) => b,
            None => "unknown"@,
        }
    }
}

/// The name of a catalog, from the address of its origin that git printed and from
/// the name of its directory.
pub fn catalog_name(printed: Option<&str>, base: Option<&str>) -> (r: String)
    ensures
        r@ == catalog_called(text::opt_text(printed), text::opt_text(base)),
{
    if let Some(p) = printed {
        let url = text::trim(p);
        let repo = text::tail_after(text::trim_endings(url.as_str(), ".git").as_str(), '/');
        if !repo.as_str().is_empty() {
            return repo;
        }
    }
    match base {
        Some(b) => b.to_owned(),
        None => "unknown".to_owned(),
    }
}

/// The name of the catalog of a directory. `origin` is what git wrote when it was
/// asked for the address of the origin, none where it could not be asked.
///
/// Where the name is that of the directory, it is stated of the paths that every
/// platform reads alike; of other paths, that it is a part of the path, or `unknown`.
pub fn catalog_name_from_path(path: &str, origin: Option<Vec<u8>>) -> (r: String)
    ensures
        paths::portable(path@) ==> r@ == catalog_called(
            match origin {
                Some(bytes) => Some(outside::lossy_text(bytes@)),
                None => None,
            },
            paths::name_in(path@),
        ),
        origin is Some && repository_printed(outside::lossy_text(origin->Some_0@)).len() > 0
            ==> r@ == repository_printed(outside::lossy_text(origin->Some_0@)),
        origin is Some && vstd::utf8::valid_utf8(origin->Some_0@) && repository_printed(
            vstd::utf8::decode_utf8(origin->Some_0@),
        ).len() > 0 ==> r@ == repository_printed(vstd::utf8::decode_utf8(origin->Some_0@)),
        paths::portable(path@) && origin is Some && vstd::utf8::valid_utf8(origin->Some_0@) ==> r@
            == catalog_called(
            Some(vstd::utf8::decode_utf8(origin->Some_0@)),
            paths::name_in(path@),
        ),
        r@.len() > 0,
        origin is None || repository_printed(outside::lossy_text(origin->Some_0@)).len() == 0
            ==> r@ == "unknown"@ || text::occurs_in(r@, path@),
{
    proof {
        reveal_strlit("unknown");
    }
    let base = outside::file_name(path);
    let base_name = match &base {
        Some(b) => Some(b.as_str()),
        None => None,
    };
    match origin {
        Some(bytes) => {
            let printed = outside::text_of_bytes(&bytes);
            catalog_name(Some(printed.as_str()), base_name)
        },
        None => catalog_name(None, base_name),
    }
}

// ---------------------------------------------------------------------------
// Time of day
// ---------------------------------------------------------------------------

/// A number with at least two digits.
pub open spec fn two_digits(n: nat) -> Seq<char> {
    if n < 10 {
        "0"@ + text::decimal(n)
    } else {
        text::decimal(n)
    }
}

/// The time of day at `now` seconds: hours, minutes and seconds.
pub open spec fn time_of_day(now: nat) -> Seq<char> {
    two_digits((now / 3600) % 24) + ":"@ + two_digits((now / 60) % 60) + ":"@ + two_digits(now % 60)
}

/// A number with at least two digits.
fn padded(n: u64) -> (r: String)
    ensures
        r@ == two_digits(n as nat),
{
    if n < 10 {
        let mut r = "0".to_owned();
        r.append(text::number(n).as_str());
        r
    } else {
        text::number(n)
    }
}

/// The time of day at `now` seconds after the epoch.
pub fn chrono_timestamp(now: u64) -> (r: String)
    ensures
        r@ == time_of_day(now as nat),
{
    let mut r = padded((now / 3600) % 24);
    r.append(":");
    r.append(padded((now / 60) % 60).as_str());
    r.append(":");
    r.append(padded(now % 60).as_str());
    r
}

// ---------------------------------------------------------------------------
// Laws
// ---------------------------------------------------------------------------

/// The name of a repository has no slash, so it can stand in a path as one segment.
pub proof fn law_repository_has_no_slash(url: Seq<char>)
    ensures
        !repository_in(url).contains('/'),
{
    lemma_after_last_is_free(text::without_endings(url, ".git"@), '/');
}

proof fn lemma_after_last_is_free(s: Seq<char>, c: char)
    ensures
        !text::after_last(s, c).contains(c),
    decreases s.len(),
{
    if s.len() > 0 && s.last() != c {
        let rest = text::after_last(s.drop_last(), c);
        lemma_after_last_is_free(s.drop_last(), c);
        let r = text::after_last(s, c);
        assert forall|i: int| 0 <= i < r.len() implies r[i] != c by {
            if i < rest.len() {
                assert(r[i] == rest[i]);
                assert(rest.contains(rest[i]));
            }
        }
    }
}

/// The address `front/name.git` names the repository `name`.
pub proof fn law_address_names_its_repository(front: Seq<char>, name: Seq<char>)
    requires
        name.len() > 0,
        !name.contains('/'),
        !".git"@.is_suffix_of(front + "/"@ + name),
    ensures
        repository_in(front + "/"@ + name + ".git"@) == name,
        repository_in(front + "/"@ + name) == name,
{
    reveal_strlit("/");
    reveal_strlit(".git");
    let address = front + "/"@ + name;
    let url = address + ".git"@;
    assert(url.subrange(url.len() - 4, url.len() as int) == ".git"@);
    assert(url.take(url.len() - 4) == address);
    assert(text::without_endings(address, ".git"@) == address);
    let at = front.len() as int;
    assert(address[at] == '/');
    assert forall|i: int| at + 1 <= i < address.len() implies #[trigger] address[i] != '/' by {
        assert(address[i] == name[i - at - 1]);
        assert(name.contains(name[i - at - 1]));
    }
    text::lemma_after_last_is(address, '/', at + 1);
    assert(address.skip(at + 1) == name);
}

/// The time of day is eight characters wide, and comes back after a day.
#[verifier::spinoff_prover]
pub proof fn law_time_of_day(now: nat)
    ensures
        time_of_day(now).len() == 8,
        time_of_day(now + 86400) == time_of_day(now),
{
    lemma_two_digits((now / 3600) % 24);
    lemma_two_digits((now / 60) % 60);
    lemma_two_digits(now % 60);
    reveal_strlit(":");
    lemma_a_day_later(now);
}

proof fn lemma_a_day_later(now: nat)
    ensures
        ((now + 86400) / 3600) % 24 == (now / 3600) % 24,
        ((now + 86400) / 60) % 60 == (now / 60) % 60,
        (now + 86400) % 60 == now % 60,
{
    assert((now + 86400) / 3600 == now / 3600 + 24);
    assert((now + 86400) / 60 == now / 60 + 1440);
}

proof fn lemma_two_digits(n: nat)
    requires
        n < 100,
    ensures
        two_digits(n).len() == 2,
{
    reveal_strlit("0");
    if n >= 10 {
        assert(text::decimal(n / 10).len() == 1);
    }
}

/// The branch is what git printed, without the white space around it, unless that is
/// nothing or says that no branch is checked out: then it is the main branch. So it never
/// is either of these.
pub proof fn law_branch_is_what_was_printed(printed: Seq<char>)
    ensures
        text::trimmed(printed).len() > 0 && text::trimmed(printed) != "HEAD"@ ==> branch_printed(
            printed,
        ) == text::trimmed(printed),
        text::trimmed(printed).len() == 0 || text::trimmed(printed) == "HEAD"@ ==> branch_printed(
            printed,
        ) == "main"@,
        branch_printed(printed).len() > 0 && branch_printed(printed) != "HEAD"@,
{
    reveal_strlit("main");
    reveal_strlit("HEAD");
    assert("main"@.len() == 4 && "HEAD"@.len() == 4 && "main"@[0] != "HEAD"@[0]);
}

/// A catalog goes by the repository that git printed, where it printed one, else by its
/// directory, and where that has no name it is unknown.
pub proof fn law_catalog_goes_by_its_repository(printed: Seq<char>, base: Option<Seq<char>>)
    ensures
        repository_printed(printed) == repository_in(text::trimmed(printed)),
        repository_printed(printed).len() > 0 ==> catalog_called(Some(printed), base)
            == repository_printed(printed),
        repository_printed(printed).len() == 0 ==> catalog_called(Some(printed), base)
            == catalog_called(None, base),
        base matches Some(b) ==> catalog_called(None, base) == b,
        base is None ==> catalog_called(None, base) == "unknown"@,
{
}

/// However often an address ends in `.git`, it names the same repository. One without a
/// slash is the name itself, and one that ends in a slash names none.
pub proof fn law_endings_do_not_name(url: Seq<char>)
    ensures
        repository_in(url + ".git"@) == repository_in(url),
        !url.contains('/') && !".git"@.is_suffix_of(url) ==> repository_in(url) == url,
        repository_in(url.push('/')).len() == 0,
{
    reveal_strlit(".git");
    text::law_endings_are_taken_off(url, ".git"@);
    if !url.contains('/') {
        text::law_parts_at_the_last(Seq::empty(), '/', url);
    }
    let open = url.push('/');
    if ".git"@.is_suffix_of(open) {
        assert(open.subrange(open.len() - 4, open.len() as int)[3] == 't');
    }
    text::law_endings_are_taken_off(open, ".git"@);
}

/// The digits of the time of day are the hours, minutes and seconds since midnight.
#[verifier::spinoff_prover]
pub proof fn law_time_of_day_tells_the_time(now: nat)
    ensures
        ({
            let t = time_of_day(now);
            let h = 10 * (t[0] as int - 48) + (t[1] as int - 48);
            let m = 10 * (t[3] as int - 48) + (t[4] as int - 48);
            let s = 10 * (t[6] as int - 48) + (t[7] as int - 48);
            &&& t.len() == 8 && t[2] == ':' && t[5] == ':'
            &&& 0 <= h < 24 && 0 <= m < 60 && 0 <= s < 60
            &&& h * 3600 + m * 60 + s == now % 86400
        }),
{
    reveal_strlit(":");
    lemma_digits_of_two((now / 3600) % 24);
    lemma_digits_of_two((now / 60) % 60);
    lemma_digits_of_two(now % 60);
    lemma_parts_of_a_day(now);
    let h = two_digits((now / 3600) % 24);
    let m = two_digits((now / 60) % 60);
    let s = two_digits(now % 60);
    let t = time_of_day(now);
    assert(t[0] == h[0] && t[1] == h[1] && t[3] == m[0] && t[4] == m[1] && t[6] == s[0] && t[7]
        == s[1]);
}

proof fn lemma_parts_of_a_day(now: nat)
    ensures
        ((now / 3600) % 24) * 3600 + ((now / 60) % 60) * 60 + now % 60 == now % 86400,
{
    let q = now / 86400;
    let r = (now % 86400) as int;
    assert(now == q * 86400 + r);
    assert(now / 3600 == q * 24 + r / 3600);
    assert(now / 60 == q * 1440 + r / 60);
    assert((now / 3600) % 24 == r / 3600);
    assert((now / 60) % 60 == (r / 60) % 60);
    assert(now % 60 == r % 60);
}

proof fn lemma_digits_of_two(n: nat)
    requires
        n < 100,
    ensures
        two_digits(n).len() == 2,
        10 * (two_digits(n)[0] as int - 48) + (two_digits(n)[1] as int - 48) == n,
{
    reveal_strlit("0");
    reveal_with_fuel(text::decimal, 3);
    if n < 10 {
        assert(two_digits(n)[0] == '0');
        assert(two_digits(n)[1] == text::digit_char(n));
    } else {
        assert(text::decimal(n / 10) == seq![text::digit_char(n / 10)]);
        assert(two_digits(n)[0] == text::digit_char(n / 10));
        assert(two_digits(n)[1] == text::digit_char(n % 10));
    }
}

} // verus!
