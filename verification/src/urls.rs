//! Normalization of GitHub-style URLs to raw-content form, and resolution of
//! manifest-relative file references.

use vstd::prelude::*;
use crate::external::push_char;
use crate::text::contains_sub;
use crate::text::count_char;
use crate::text::ends_with_spec;
use crate::text::replace_all;
use crate::text::replace_all_spec;
use crate::text::starts_with_spec;
use crate::text::str_contains;
use crate::text::str_ends_with;
use crate::text::str_starts_with;
use crate::text::trim_end_all;
use crate::text::trim_end_all_spec;
use crate::text::trim_start_char;
use crate::text::trim_start_char_spec;
use crate::text::count_char_in;

verus! {

/// A GitHub blob URL rewritten to its raw-content form; anything else is
/// unchanged.
pub open spec fn github_raw_spec(url: Seq<char>) -> Seq<char> {
    if contains_sub(url, "github.com"@) && contains_sub(url, "/blob/"@) {
        replace_all_spec(
            replace_all_spec(url, "github.com"@, "raw.githubusercontent.com"@),
            "/blob/"@,
            "/"@,
        )
    } else {
        url
    }
}

/// Convert GitHub blob URLs to raw content URLs.
pub fn convert_github_url_to_raw(url: &str) -> (r: String)
    ensures
        r@ == github_raw_spec(url@),
{
    proof {
        reveal_strlit("github.com");
        reveal_strlit("/blob/");
    }
    if str_contains(url, "github.com") && str_contains(url, "/blob/") {
        let step = replace_all(url, "github.com", "raw.githubusercontent.com");
        replace_all(step.as_str(), "/blob/", "/")
    } else {
        url.to_owned()
    }
}

/// A GitHub repository or tree URL rewritten to the raw URL of its
/// conventional manifest file; a direct manifest URL is only rewritten to
/// raw form; a non-GitHub URL is unchanged.
pub open spec fn github_registry_spec(url: Seq<char>) -> Seq<char> {
    if contains_sub(url, "github.com"@) {
        let clean = replace_all_spec(
            replace_all_spec(url, "/tree/"@, "/"@),
            "/blob/"@,
            "/"@,
        );
        if !ends_with_spec(clean, ".json"@) && !ends_with_spec(clean, ".yaml"@) {
            let raw_base = replace_all_spec(clean, "github.com"@, "raw.githubusercontent.com"@);
            if count_char(raw_base, '/') == 4 {
                raw_base + "/main/registry.json"@
            } else {
                trim_end_all_spec(raw_base, "/"@) + "/registry.json"@
            }
        } else {
            github_raw_spec(clean)
        }
    } else {
        url
    }
}

/// Convert GitHub tree or repository URLs to the raw URL of the
/// conventional `registry.json` manifest.
pub fn convert_github_repo_to_registry(url: &str) -> (r: String)
    ensures
        r@ == github_registry_spec(url@),
{
    proof {
        reveal_strlit("github.com");
        reveal_strlit("/tree/");
        reveal_strlit("/blob/");
        reveal_strlit("/");
    }
    if str_contains(url, "github.com") {
        let step = replace_all(url, "/tree/", "/");
        let clean = replace_all(step.as_str(), "/blob/", "/");
        if !str_ends_with(clean.as_str(), ".json") && !str_ends_with(clean.as_str(), ".yaml") {
            let raw_base = replace_all(clean.as_str(), "github.com", "raw.githubusercontent.com");
            if count_char_in(raw_base.as_str(), '/') == 4 {
                let mut r = raw_base;
                r.append("/main/registry.json");
                r
            } else {
                let mut r = trim_end_all(raw_base.as_str(), "/");
                r.append("/registry.json");
                r
            }
        } else {
            convert_github_url_to_raw(clean.as_str())
        }
    } else {
        url.to_owned()
    }
}

/// The absolute URL of a skill file reference: an absolute reference is
/// kept; a relative one is joined against the registry base with the
/// conventional manifest name stripped.
pub open spec fn resolved_file_url_spec(file_ref: Seq<char>, registry_url: Seq<char>) -> Seq<
    char,
> {
    if starts_with_spec(file_ref, "http"@) {
        file_ref
    } else {
        let base = trim_end_all_spec(
            trim_end_all_spec(registry_url, "registry.json"@),
            "/"@,
        );
        base + "/"@ + trim_start_char_spec(file_ref, '/')
    }
}

/// Resolve a skill file reference against its registry URL.
pub fn resolve_file_url(file_ref: &str, registry_url: &str) -> (r: String)
    ensures
        r@ == resolved_file_url_spec(file_ref@, registry_url@),
{
    proof {
        reveal_strlit("http");
        reveal_strlit("registry.json");
        reveal_strlit("/");
    }
    if str_starts_with(file_ref, "http") {
        file_ref.to_owned()
    } else {
        let step = trim_end_all(registry_url, "registry.json");
        let base = trim_end_all(step.as_str(), "/");
        let tail = trim_start_char(file_ref, '/');
        let mut r = base;
        push_char(&mut r, '/');
        r.append(tail.as_str());
        proof {
            assert(r@ =~= resolved_file_url_spec(file_ref@, registry_url@));
        }
        r
    }
}

} // verus!
