//! The Local Scanner: walks per-agent configuration and skills directories,
//! classifies files, decides entry files by a fixed precedence, and builds
//! the Skill catalog.

use vstd::prelude::*;
use crate::agent::format_from_ext_spec;
use crate::agent::AgentConfig;
use crate::agent::AgentType;
use crate::agent::SkillFormat;
use crate::error::AppError;
use crate::external::push_char;
use crate::fsmodel::FsNode;
use crate::fsmodel::FsState;
use crate::paths::basename_of;
use crate::paths::child_name;
use crate::paths::is_child_of;
use crate::paths::is_strictly_under;
use crate::paths::path_basename;
use crate::paths::path_child_name;
use crate::paths::path_is_child_of;
use crate::skill::Skill;
use crate::skill::SkillFile;
use crate::text::lex_le;
use crate::text::lemma_lex_le_total;
use crate::text::lemma_lex_le_trans;
use crate::text::str_eq;
use crate::text::str_le;
use vstd::string::StringSliceAdditionalSpecFns;

verus! {

// ---------------------------------------------------------------------------
// File extensions
// ---------------------------------------------------------------------------

/// The index just after the last `.` of `s`, or 0 when `s` has no `.`.
pub open spec fn after_last_dot(s: Seq<char>) -> int
    decreases s.len(),
{
    if s.len() == 0 {
        0
    } else if s.last() == '.' {
        s.len() as int
    } else {
        after_last_dot(s.drop_last())
    }
}

/// The extension of a file name: what follows the last `.`, or empty.
pub open spec fn ext_of(s: Seq<char>) -> Seq<char> {
    if after_last_dot(s) == 0 {
        Seq::empty()
    } else {
        s.skip(after_last_dot(s))
    }
}

proof fn lemma_after_last_dot(s: Seq<char>)
    ensures
        0 <= after_last_dot(s) <= s.len(),
        forall|m: int| after_last_dot(s) <= m < s.len() ==> s[m] != '.',
        after_last_dot(s) > 0 ==> s[after_last_dot(s) - 1] == '.',
    decreases s.len(),
{
    if s.len() > 0 && s.last() != '.' {
        lemma_after_last_dot(s.drop_last());
        assert(forall|m: int| 0 <= m < s.len() - 1 ==> s[m] == s.drop_last()[m]);
    }
}

proof fn lemma_after_last_dot_unique(s: Seq<char>, j: int)
    requires
        0 <= j <= s.len(),
        forall|m: int| j <= m < s.len() ==> s[m] != '.',
        j > 0 ==> s[j - 1] == '.',
    ensures
        j == after_last_dot(s),
{
    lemma_after_last_dot(s);
    let a = after_last_dot(s);
    if j < a {
        assert(s[a - 1] == '.');
    } else if j > a {
        assert(s[j - 1] == '.');
    }
}

/// The extension of a file name.
pub fn name_extension(name: &str) -> (r: String)
    ensures
        r@ == ext_of(name@),
{
    let n = name.unicode_len();
    let mut j: usize = n;
    while j > 0 && name.get_char(j - 1) != '.'
        invariant
            n == name@.len(),
            j <= n,
            forall|m: int| j <= m < n ==> name@[m] != '.',
        decreases j,
    {
        j -= 1;
    }
    proof {
        lemma_after_last_dot_unique(name@, j as int);
    }
    if j == 0 {
        let r = String::new();
        assert(r@ =~= ext_of(name@));
        r
    } else {
        String::from_str(name.substring_char(j, n))
    }
}

// ---------------------------------------------------------------------------
// Description extraction
// ---------------------------------------------------------------------------

pub open spec fn is_space_char(c: char) -> bool {
    c == ' ' || c == '\t' || c == '\r'
}

pub open spec fn trim_front(s: Seq<char>) -> Seq<char>
    decreases s.len(),
{
    if s.len() > 0 && is_space_char(s[0]) {
        trim_front(s.skip(1))
    } else {
        s
    }
}

pub open spec fn trim_back(s: Seq<char>) -> Seq<char>
    decreases s.len(),
{
    if s.len() > 0 && is_space_char(s.last()) {
        trim_back(s.drop_last())
    } else {
        s
    }
}

/// `s` with leading and trailing blanks removed.
pub open spec fn trim_spec(s: Seq<char>) -> Seq<char> {
    trim_back(trim_front(s))
}

/// The index of the first newline of `s`, or its length.
pub open spec fn first_nl(s: Seq<char>) -> int
    decreases s.len(),
{
    if s.len() == 0 {
        0
    } else if s[0] == '\n' {
        0
    } else {
        1 + first_nl(s.skip(1))
    }
}

proof fn lemma_first_nl(s: Seq<char>)
    ensures
        0 <= first_nl(s) <= s.len(),
        forall|m: int| 0 <= m < first_nl(s) ==> s[m] != '\n',
        first_nl(s) < s.len() ==> s[first_nl(s)] == '\n',
    decreases s.len(),
{
    if s.len() > 0 && s[0] != '\n' {
        lemma_first_nl(s.skip(1));
        assert forall|m: int| 0 <= m < first_nl(s) implies s[m] != '\n' by {
            if m > 0 {
                assert(s.skip(1)[m - 1] == s[m]);
            }
        }
        if first_nl(s) < s.len() {
            assert(s.skip(1)[first_nl(s) - 1] == s[first_nl(s)]);
        }
    }
}

proof fn lemma_first_nl_unique(s: Seq<char>, j: int)
    requires
        0 <= j <= s.len(),
        forall|m: int| 0 <= m < j ==> s[m] != '\n',
        j < s.len() ==> s[j] == '\n',
    ensures
        j == first_nl(s),
{
    lemma_first_nl(s);
    let a = first_nl(s);
    if j < a {
        assert(s[j] == '\n');
    } else if j > a {
        assert(s[a] == '\n');
    }
}

/// A line qualifies as a description when, trimmed, it is non-empty and does
/// not begin with a heading marker.
pub open spec fn qualifying_line(l: Seq<char>) -> bool {
    trim_spec(l).len() > 0 && trim_spec(l)[0] != '#'
}

/// A qualifying line's trimmed text, capped at 200 characters.
pub open spec fn truncate200(d: Seq<char>) -> Seq<char> {
    if d.len() <= 200 {
        d
    } else {
        d.take(200)
    }
}

/// The description of a text: the first line that, trimmed, is non-empty and
/// is no heading, truncated to 200 characters; none otherwise.
pub open spec fn description_of(s: Seq<char>) -> Option<Seq<char>>
    decreases s.len(),
    via description_of_decreases
{
    if s.len() == 0 {
        None
    } else {
        let i = first_nl(s);
        let line = s.take(i);
        if qualifying_line(line) {
            Some(truncate200(trim_spec(line)))
        } else if i >= s.len() {
            None
        } else {
            description_of(s.skip(i + 1))
        }
    }
}

#[via_fn]
proof fn description_of_decreases(s: Seq<char>) {
    lemma_first_nl(s);
}

/// Trim leading and trailing blanks.
pub fn trim_ascii(s: &str) -> (r: String)
    ensures
        r@ == trim_spec(s@),
{
    let n = s.unicode_len();
    let mut a: usize = 0;
    proof {
        assert(s@.skip(0) =~= s@);
    }
    while a < n && (s.get_char(a) == ' ' || s.get_char(a) == '\t' || s.get_char(a) == '\r')
        invariant
            n == s@.len(),
            a <= n,
            trim_front(s@) == trim_front(s@.skip(a as int)),
        decreases n - a,
    {
        proof {
            assert(s@.skip(a as int)[0] == s@[a as int]);
            assert(s@.skip(a as int).skip(1) =~= s@.skip(a + 1));
        }
        a += 1;
    }
    proof {
        if a < n {
            assert(s@.skip(a as int)[0] == s@[a as int]);
        } else {
            assert(s@.skip(a as int).len() == 0);
        }
        assert(trim_front(s@) == s@.skip(a as int));
    }
    let ghost t = s@.skip(a as int);
    let mut j: usize = n - a;
    proof {
        assert(t.take(t.len() as int) =~= t);
    }
    while j > 0 && (s.get_char(a + j - 1) == ' ' || s.get_char(a + j - 1) == '\t' || s.get_char(
        a + j - 1,
    ) == '\r')
        invariant
            n == s@.len(),
            a <= n,
            t == s@.skip(a as int),
            j <= n - a,
            trim_back(t) == trim_back(t.take(j as int)),
        decreases j,
    {
        proof {
            assert(t.take(j as int).last() == s@[a + j - 1]);
            assert(t.take(j as int).drop_last() =~= t.take(j - 1));
        }
        j -= 1;
    }
    proof {
        if j > 0 {
            assert(t.take(j as int).last() == s@[a + j - 1]);
        }
        assert(trim_back(t) == t.take(j as int));
        assert(t.take(j as int) =~= s@.subrange(a as int, a + j));
    }
    String::from_str(s.substring_char(a, a + j))
}

/// Extract a description: scan lines, skip blanks and headings, return the
/// first qualifying line truncated to 200 characters.
pub fn extract_description(content: &str) -> (r: Option<String>)
    ensures
        match (r, description_of(content@)) {
            (Some(d), Some(e)) => d@ == e,
            (None, None) => true,
            _ => false,
        },
    decreases content@.len(),
{
    let n = content.unicode_len();
    if n == 0 {
        return None;
    }
    // find the first newline
    let mut i: usize = 0;
    while i < n && content.get_char(i) != '\n'
        invariant
            n == content@.len(),
            i <= n,
            forall|m: int| 0 <= m < i ==> content@[m] != '\n',
        decreases n - i,
    {
        i += 1;
    }
    proof {
        lemma_first_nl_unique(content@, i as int);
    }
    let line = content.substring_char(0, i);
    let trimmed = trim_ascii(line);
    let tn = trimmed.as_str().unicode_len();
    if tn > 0 && trimmed.as_str().get_char(0) != '#' {
        if tn <= 200 {
            Some(trimmed)
        } else {
            let r = String::from_str(trimmed.as_str().substring_char(0, 200));
            Some(r)
        }
    } else if i >= n {
        None
    } else {
        let rest = content.substring_char(i + 1, n);
        extract_description(rest)
    }
}

// ---------------------------------------------------------------------------
// Entry precedence
// ---------------------------------------------------------------------------

/// The precedence rank of a file name as an entry candidate: `skill.md`
/// always wins; `index.md`, `README.md` and `<folder>.md` tie at the next
/// rank, first seen wins among them; everything else is no candidate.
pub open spec fn entry_rank(name: Seq<char>, folder: Seq<char>) -> int {
    if name == "skill.md"@ {
        0
    } else if name == "index.md"@ || name == "README.md"@ || name == folder + ".md"@ {
        1
    } else {
        2
    }
}

pub fn entry_rank_of(name: &str, folder_name: &str) -> (r: usize)
    ensures
        r == entry_rank(name@, folder_name@),
{
    if str_eq(name, "skill.md") {
        return 0;
    }
    let mut fmd = folder_name.to_owned();
    push_char(&mut fmd, '.');
    push_char(&mut fmd, 'm');
    push_char(&mut fmd, 'd');
    proof {
        reveal_strlit(".md");
        assert(fmd@ =~= folder_name@ + ".md"@);
    }
    if str_eq(name, "index.md") || str_eq(name, "README.md") || str_eq(name, fmd.as_str()) {
        1
    } else {
        2
    }
}

// ---------------------------------------------------------------------------
// Ordering of a skill's files
// ---------------------------------------------------------------------------

/// File order inside a skill: the entry first, the rest by name.
pub open spec fn file_le(a: SkillFile, b: SkillFile) -> bool {
    if a.is_entry != b.is_entry {
        a.is_entry
    } else {
        lex_le(a.name@, b.name@)
    }
}

proof fn lemma_file_le_total(a: SkillFile, b: SkillFile)
    ensures
        file_le(a, b) || file_le(b, a),
{
    if a.is_entry == b.is_entry {
        lemma_lex_le_total(a.name@, b.name@);
    }
}

proof fn lemma_file_le_trans(a: SkillFile, b: SkillFile, c: SkillFile)
    requires
        file_le(a, b),
        file_le(b, c),
    ensures
        file_le(a, c),
{
    if a.is_entry == b.is_entry && b.is_entry == c.is_entry {
        lemma_lex_le_trans(a.name@, b.name@, c.name@);
    }
}

fn skill_file_le(a: &SkillFile, b: &SkillFile) -> (r: bool)
    ensures
        r == file_le(*a, *b),
{
    if a.is_entry != b.is_entry {
        a.is_entry
    } else {
        str_le(a.name.as_str(), b.name.as_str())
    }
}

/// Insert one file into a list ordered entry-first-then-by-name.
fn insert_by_order(out: &mut Vec<SkillFile>, x: SkillFile)
    requires
        forall|m1: int, m2: int|
            0 <= m1 < m2 < old(out)@.len() ==> file_le(old(out)@[m1], old(out)@[m2]),
    ensures
        final(out)@.len() == old(out)@.len() + 1,
        exists|p: int|
            {
                &&& 0 <= p <= old(out)@.len()
                &&& #[trigger] final(out)@[p] == x
                &&& (forall|q: int| 0 <= q < p ==> final(out)@[q] == old(out)@[q])
                &&& (forall|q: int| p < q < final(out)@.len() ==> final(out)@[q] == old(out)@[q
                    - 1])
            },
        forall|m1: int, m2: int|
            0 <= m1 < m2 < final(out)@.len() ==> file_le(final(out)@[m1], final(out)@[m2]),
{
    let olen = out.len();
    let mut p: usize = 0;
    while p < olen && skill_file_le(&out[p], &x)
        invariant
            olen == out@.len(),
            p <= olen,
            forall|m: int| 0 <= m < p ==> file_le(out@[m], x),
        decreases olen - p,
    {
        p += 1;
    }
    let ghost out0 = out@;
    let ghost pos = p as int;
    proof {
        if pos < olen {
            lemma_file_le_total(out0[pos], x);
        }
    }
    out.insert(p, x);
    proof {
        assert(out@ == out0.insert(pos, x));
        assert(out@[pos] == x);
        assert(forall|q: int| 0 <= q < pos ==> out@[q] == out0[q]);
        assert(forall|q: int| pos < q < out@.len() ==> out@[q] == out0[q - 1]);
        assert forall|m1: int, m2: int|
            0 <= m1 < m2 < out@.len() implies file_le(out@[m1], out@[m2]) by {
            if m2 < pos {
                assert(out@[m1] == out0[m1] && out@[m2] == out0[m2]);
            } else if m2 == pos {
                assert(out@[m1] == out0[m1]);
            } else {
                assert(out@[m2] == out0[m2 - 1]);
                assert(pos < olen);
                assert(file_le(x, out0[pos]));
                if m2 - 1 > pos {
                    lemma_file_le_trans(x, out0[pos], out0[m2 - 1]);
                }
                if m1 < pos {
                    assert(out@[m1] == out0[m1]);
                    lemma_file_le_trans(out0[m1], x, out0[m2 - 1]);
                } else if m1 == pos {
                    assert(out@[m1] == x);
                } else {
                    assert(out@[m1] == out0[m1 - 1]);
                }
            }
        }
    }
}

// ---------------------------------------------------------------------------
// The scanner
// ---------------------------------------------------------------------------

/// The facts that tie one catalog file to the modelled filesystem.
pub open spec fn file_matches_fs(fsm: Map<Seq<char>, FsNode>, folder: Seq<char>, f: SkillFile) -> bool {
    &&& fsm.contains_key(f.file_path@)
    &&& !fsm[f.file_path@].is_dir
    &&& is_strictly_under(f.file_path@, folder)
    &&& f.name@ == basename_of(f.file_path@)
    &&& f.format == format_from_ext_spec(ext_of(f.name@))
    &&& f.size == (vstd::utf8::encode_utf8(fsm[f.file_path@].content).len() as usize) as u64
}

/// Walks directories and builds the Skill catalog.
pub struct SkillService;

impl SkillService {
    /// Every file at any depth below `folder_path`, not yet flagged.
    #[verifier::rlimit(100)]
    fn files_under(fs: &FsState, folder_path: &str) -> (r: Vec<SkillFile>)
        requires
            fs.wf(),
        ensures
            forall|m: int|
                0 <= m < r@.len() ==> file_matches_fs(fs@, folder_path@, #[trigger] r@[m])
                    && !r@[m].is_entry,
            forall|k: Seq<char>|
                fs@.contains_key(k) && is_strictly_under(k, folder_path@) && !fs@[k].is_dir
                    ==> exists|m: int| 0 <= m < r@.len() && #[trigger] r@[m].file_path@ == k,
            forall|m1: int, m2: int|
                0 <= m1 < m2 < r@.len() ==> r@[m1].file_path@ != r@[m2].file_path@,
    {
        let subtree = fs.subtree_paths(folder_path);
        let n = subtree.len();
        let mut r: Vec<SkillFile> = Vec::new();
        let mut i: usize = 0;
        while i < n
            invariant
                fs.wf(),
                n == subtree@.len(),
                i <= n,
                forall|m: int|
                    0 <= m < subtree@.len() ==> fs@.contains_key(#[trigger] subtree@[m]@)
                        && is_strictly_under(subtree@[m]@, folder_path@),
                forall|k: Seq<char>|
                    fs@.contains_key(k) && is_strictly_under(k, folder_path@) ==> exists|m: int|
                        0 <= m < subtree@.len() && #[trigger] subtree@[m]@ == k,
                forall|m1: int, m2: int|
                    0 <= m1 < m2 < subtree@.len() ==> subtree@[m1]@ != subtree@[m2]@,
                forall|m: int|
                    0 <= m < r@.len() ==> file_matches_fs(fs@, folder_path@, #[trigger] r@[m])
                        && !r@[m].is_entry,
                forall|j: int|
                    0 <= j < i && fs@.contains_key(#[trigger] subtree@[j]@)
                        && !fs@[subtree@[j]@].is_dir ==> exists|m: int|
                        0 <= m < r@.len() && #[trigger] r@[m].file_path@ == subtree@[j]@,
                forall|m: int| 0 <= m < r@.len() ==> exists|j: int|
                    0 <= j < i && #[trigger] r@[m].file_path@ == subtree@[j]@,
                forall|m1: int, m2: int|
                    0 <= m1 < m2 < r@.len() ==> r@[m1].file_path@ != r@[m2].file_path@,
            decreases n - i,
        {
            let path = &subtree[i];
            match fs.get_entry(path.as_str()) {
                Some(e) => {
                    if !e.is_dir {
                        let name = path_basename(path.as_str());
                        let ext = name_extension(name.as_str());
                        let format = SkillFormat::from_extension(ext.as_str());
                        let size = e.content.as_str().len() as u64;
                        let f = SkillFile {
                            name,
                            file_path: path.clone(),
                            format,
                            is_entry: false,
                            size,
                        };
                        let ghost r0 = r@;
                        r.push(f);
                        proof {
                            assert(r@.drop_last() =~= r0);
                            assert(r@[r@.len() - 1].file_path@ == subtree@[i as int]@);
                            assert(file_matches_fs(fs@, folder_path@, r@[r@.len() - 1]));
                            assert forall|m1: int, m2: int|
                                0 <= m1 < m2 < r@.len() implies r@[m1].file_path@
                                != r@[m2].file_path@ by {
                                if m2 == r@.len() - 1 {
                                    let j = choose|j: int|
                                        0 <= j < i && #[trigger] r@[m1].file_path@ == subtree@[j]@;
                                    assert(subtree@[j]@ != subtree@[i as int]@);
                                }
                            }
                        }
                    }
                },
                None => {
                    proof {
                        assert(false);
                    }
                },
            }
            i += 1;
        }
        r
    }

    /// Choose the entry among the immediate children: the lowest precedence
    /// rank wins, first seen among equals, so a file literally named
    /// `skill.md` wins whatever the enumeration order.
    fn pick_entry(files: &Vec<SkillFile>, folder_path: &str, folder_name: &str) -> (r: Option<
        usize,
    >)
        ensures
            match r {
                Some(b) => {
                    &&& b < files@.len()
                    &&& is_child_of(files@[b as int].file_path@, folder_path@)
                    &&& entry_rank(files@[b as int].name@, folder_name@) < 2
                    &&& ((exists|m: int|
                        0 <= m < files@.len() && is_child_of(
                            #[trigger] files@[m].file_path@,
                            folder_path@,
                        ) && files@[m].name@ == "skill.md"@) ==> files@[b as int].name@
                        == "skill.md"@)
                },
                None => forall|m: int|
                    0 <= m < files@.len() && is_child_of(
                        #[trigger] files@[m].file_path@,
                        folder_path@,
                    ) ==> entry_rank(files@[m].name@, folder_name@) >= 2,
            },
    {
        let n = files.len();
        let mut best: usize = 0;
        let mut best_rank: usize = 2;
        let mut has_best = false;
        let mut i: usize = 0;
        while i < n
            invariant
                n == files@.len(),
                i <= n,
                best_rank <= 2,
                has_best ==> best < n && is_child_of(files@[best as int].file_path@, folder_path@)
                    && entry_rank(files@[best as int].name@, folder_name@) == best_rank
                    && best_rank < 2,
                !has_best ==> best_rank == 2,
                forall|m: int|
                    0 <= m < i && is_child_of(#[trigger] files@[m].file_path@, folder_path@)
                        ==> entry_rank(files@[m].name@, folder_name@) >= best_rank,
            decreases n - i,
        {
            if path_is_child_of(files[i].file_path.as_str(), folder_path) {
                let rank = entry_rank_of(files[i].name.as_str(), folder_name);
                if rank < best_rank {
                    best = i;
                    best_rank = rank;
                    has_best = true;
                }
            }
            i += 1;
        }
        if has_best {
            proof {
                if exists|m: int|
                    0 <= m < files@.len() && is_child_of(
                        #[trigger] files@[m].file_path@,
                        folder_path@,
                    ) && files@[m].name@ == "skill.md"@ {
                    let m = choose|m: int|
                        0 <= m < files@.len() && is_child_of(
                            #[trigger] files@[m].file_path@,
                            folder_path@,
                        ) && files@[m].name@ == "skill.md"@;
                    assert(entry_rank(files@[m].name@, folder_name@) == 0);
                    assert(best_rank == 0);
                }
            }
            Some(best)
        } else {
            None
        }
    }

    /// The same files with the chosen one flagged as entry and moved to the
    /// front; the rest keep their enumeration order.
    fn arrange_files(files: Vec<SkillFile>, b: usize) -> (r: Vec<SkillFile>)
        requires
            b < files@.len(),
            forall|q: int| 0 <= q < files@.len() ==> !(#[trigger] files@[q]).is_entry,
        ensures
            r@.len() == files@.len(),
            r@[0].file_path@ == files@[b as int].file_path@ && r@[0].name@ == files@[
                b as int
            ].name@ && r@[0].format == files@[b as int].format && r@[0].size == files@[
                b as int
            ].size && r@[0].is_entry,
            forall|q: int| #![trigger r@[q]]
                1 <= q < r@.len() ==> {
                    let j = if q <= b as int {
                        q - 1
                    } else {
                        q
                    };
                    &&& r@[q].file_path@ == files@[j].file_path@
                    &&& r@[q].name@ == files@[j].name@
                    &&& r@[q].format == files@[j].format
                    &&& r@[q].size == files@[j].size
                    &&& !r@[q].is_entry
                },
    {
        let n = files.len();
        let mut out: Vec<SkillFile> = Vec::new();
        let e = &files[b];
        out.push(
            SkillFile {
                name: e.name.clone(),
                file_path: e.file_path.clone(),
                format: e.format,
                is_entry: true,
                size: e.size,
            },
        );
        let mut i: usize = 0;
        while i < n
            invariant
                n == files@.len(),
                b < n,
                i <= n,
                out@.len() == (if i <= b {
                    i + 1
                } else {
                    i as int
                }),
                out@[0].file_path@ == files@[b as int].file_path@ && out@[0].name@ == files@[
                    b as int
                ].name@ && out@[0].format == files@[b as int].format && out@[0].size == files@[
                    b as int
                ].size && out@[0].is_entry,
                forall|q: int| #![trigger out@[q]]
                    1 <= q < out@.len() ==> {
                        let j = if q <= b as int {
                            q - 1
                        } else {
                            q
                        };
                        &&& out@[q].file_path@ == files@[j].file_path@
                        &&& out@[q].name@ == files@[j].name@
                        &&& out@[q].format == files@[j].format
                        &&& out@[q].size == files@[j].size
                        &&& !out@[q].is_entry
                    },
            decreases n - i,
        {
            if i != b {
                let src = &files[i];
                let ghost out0 = out@;
                out.push(
                    SkillFile {
                        name: src.name.clone(),
                        file_path: src.file_path.clone(),
                        format: src.format,
                        is_entry: false,
                        size: src.size,
                    },
                );
                proof {
                    assert(out@.drop_last() =~= out0);
                    assert(out@[out@.len() - 1].file_path@ == files@[i as int].file_path@
                        && out@[out@.len() - 1].name@ == files@[i as int].name@ && out@[out@.len()
                        - 1].format == files@[i as int].format && out@[out@.len() - 1].size
                        == files@[i as int].size && !out@[out@.len() - 1].is_entry);
                }
            }
            i += 1;
        }
        out
    }

    /// All catalog facts about a folder's file list in one place.
    pub open spec fn good_file_set(
        fsm: Map<Seq<char>, FsNode>,
        folder: Seq<char>,
        folder_name: Seq<char>,
        files: Seq<SkillFile>,
    ) -> bool {
        &&& forall|m: int|
            0 <= m < files.len() ==> file_matches_fs(fsm, folder, #[trigger] files[m])
        &&& forall|k: Seq<char>|
            fsm.contains_key(k) && is_strictly_under(k, folder) && !fsm[k].is_dir ==> exists|
                m: int,
            | 0 <= m < files.len() && #[trigger] files[m].file_path@ == k
        &&& forall|m1: int, m2: int|
            0 <= m1 < m2 < files.len() ==> files[m1].file_path@ != files[m2].file_path@
        &&& forall|m1: int, m2: int|
            0 <= m1 < m2 < files.len() ==> !(files[m1].is_entry && files[m2].is_entry)
        &&& ((exists|m: int|
            0 <= m < files.len() && is_child_of(#[trigger] files[m].file_path@, folder)
                && files[m].name@ == "skill.md"@) ==> exists|m: int|
            0 <= m < files.len() && #[trigger] files[m].is_entry && files[m].name@
                == "skill.md"@)
        &&& forall|m: int|
            0 <= m < files.len() && #[trigger] files[m].is_entry ==> entry_rank(
                files[m].name@,
                folder_name,
            ) < 2 && is_child_of(files[m].file_path@, folder)
        &&& ((exists|m: int|
            0 <= m < files.len() && is_child_of(#[trigger] files[m].file_path@, folder)
                && entry_rank(files[m].name@, folder_name) < 2) ==> exists|m: int|
            0 <= m < files.len() && (#[trigger] files[m]).is_entry)
    }

    /// The catalog facts plus the catalog order: the entry first, the rest
    /// by name.
    pub open spec fn good_file_list(
        fsm: Map<Seq<char>, FsNode>,
        folder: Seq<char>,
        folder_name: Seq<char>,
        files: Seq<SkillFile>,
    ) -> bool {
        &&& Self::good_file_set(fsm, folder, folder_name, files)
        &&& forall|m1: int, m2: int| 0 <= m1 < m2 < files.len() ==> file_le(files[m1], files[m2])
        &&& forall|m: int| 0 <= m < files.len() && #[trigger] files[m].is_entry ==> m == 0
    }

    /// `b` is `a` rearranged: `perm` maps output positions to source
    /// indices, `pos` maps source indices back to output positions.
    pub open spec fn files_permuted(
        perm: Seq<int>,
        pos: Seq<int>,
        a: Seq<SkillFile>,
        b: Seq<SkillFile>,
    ) -> bool {
        &&& perm.len() == b.len()
        &&& b.len() == a.len()
        &&& pos.len() == a.len()
        &&& forall|q: int| #![trigger perm[q]]
            0 <= q < b.len() ==> 0 <= perm[q] < a.len() && b[q] == a[perm[q]]
        &&& forall|q1: int, q2: int| 0 <= q1 < q2 < b.len() ==> perm[q1] != perm[q2]
        &&& forall|j: int| #![trigger pos[j]]
            0 <= j < a.len() ==> 0 <= pos[j] < b.len() && perm[pos[j]] == j && b[pos[j]] == a[j]
    }

    /// The catalog facts carry over to any rearrangement.
    proof fn lemma_good_set_transfers(
        fsm: Map<Seq<char>, FsNode>,
        folder: Seq<char>,
        folder_name: Seq<char>,
        perm: Seq<int>,
        pos: Seq<int>,
        a: Seq<SkillFile>,
        b: Seq<SkillFile>,
    )
        requires
            Self::good_file_set(fsm, folder, folder_name, a),
            Self::files_permuted(perm, pos, a, b),
        ensures
            Self::good_file_set(fsm, folder, folder_name, b),
    {
        assert forall|m: int|
            0 <= m < b.len() implies file_matches_fs(fsm, folder, #[trigger] b[m]) by {
            assert(b[m] == a[perm[m]]);
            assert(file_matches_fs(fsm, folder, a[perm[m]]));
        }
        assert forall|k: Seq<char>|
            fsm.contains_key(k) && is_strictly_under(k, folder) && !fsm[k].is_dir implies exists|
            m: int,
        | 0 <= m < b.len() && #[trigger] b[m].file_path@ == k by {
            let j = choose|j: int| 0 <= j < a.len() && #[trigger] a[j].file_path@ == k;
            assert(b[pos[j]].file_path@ == k);
        }
        assert forall|m1: int, m2: int|
            0 <= m1 < m2 < b.len() implies b[m1].file_path@ != b[m2].file_path@ by {
            let j1 = perm[m1];
            let j2 = perm[m2];
            assert(b[m1] == a[j1] && b[m2] == a[j2]);
            if j1 < j2 {
                assert(a[j1].file_path@ != a[j2].file_path@);
            } else {
                assert(a[j2].file_path@ != a[j1].file_path@);
            }
        }
        assert forall|m1: int, m2: int|
            0 <= m1 < m2 < b.len() implies !(b[m1].is_entry && b[m2].is_entry) by {
            let j1 = perm[m1];
            let j2 = perm[m2];
            assert(b[m1] == a[j1] && b[m2] == a[j2]);
            if j1 < j2 {
                assert(!(a[j1].is_entry && a[j2].is_entry));
            } else {
                assert(!(a[j2].is_entry && a[j1].is_entry));
            }
        }
        if exists|m: int|
            0 <= m < b.len() && is_child_of(#[trigger] b[m].file_path@, folder) && b[m].name@
                == "skill.md"@ {
            let m = choose|m: int|
                0 <= m < b.len() && is_child_of(#[trigger] b[m].file_path@, folder) && b[m].name@
                    == "skill.md"@;
            assert(b[m] == a[perm[m]]);
            assert(is_child_of(a[perm[m]].file_path@, folder) && a[perm[m]].name@
                == "skill.md"@);
            let j2 = choose|j2: int|
                0 <= j2 < a.len() && #[trigger] a[j2].is_entry && a[j2].name@ == "skill.md"@;
            assert(b[pos[j2]].is_entry && b[pos[j2]].name@ == "skill.md"@);
        }
        assert forall|m: int|
            0 <= m < b.len() && #[trigger] b[m].is_entry implies entry_rank(
            b[m].name@,
            folder_name,
        ) < 2 && is_child_of(b[m].file_path@, folder) by {
            assert(b[m] == a[perm[m]]);
        }
        if exists|m: int|
            0 <= m < b.len() && is_child_of(#[trigger] b[m].file_path@, folder) && entry_rank(
                b[m].name@,
                folder_name,
            ) < 2 {
            let m = choose|m: int|
                0 <= m < b.len() && is_child_of(#[trigger] b[m].file_path@, folder) && entry_rank(
                    b[m].name@,
                    folder_name,
                ) < 2;
            assert(b[m] == a[perm[m]]);
            assert(is_child_of(a[perm[m]].file_path@, folder) && entry_rank(
                a[perm[m]].name@,
                folder_name,
            ) < 2);
            let j2 = choose|j2: int| 0 <= j2 < a.len() && (#[trigger] a[j2]).is_entry;
            assert(b[pos[j2]].is_entry);
        }
    }

    /// Everything `parse_skill_folder` promises about a parsed folder skill.
    pub open spec fn parsed_folder_skill(
        fsm: Map<Seq<char>, FsNode>,
        folder: Seq<char>,
        agent: AgentType,
        s: Skill,
    ) -> bool {
        &&& fsm.contains_key(folder)
        &&& fsm[folder].is_dir
        &&& s.name@ == basename_of(folder)
        &&& s.folder_path@ == folder
        &&& s.agent.eq_spec_fn(&agent)
        &&& s.is_folder == true
        &&& s.is_local == true
        &&& s.file_count == s.files@.len()
        &&& s.created_at as int == fsm[folder].modified_at
        &&& s.updated_at as int == fsm[folder].modified_at
        &&& Self::good_file_list(fsm, folder, basename_of(folder), s.files@)
        &&& (match s.entry_file {
            Some(e) => exists|m: int|
                0 <= m < s.files@.len() && #[trigger] s.files@[m].is_entry
                    && s.files@[m].file_path@ == e@,
            None => forall|m: int| 0 <= m < s.files@.len() ==> !s.files@[m].is_entry,
        })
        &&& (match (s.description, s.entry_file) {
            (Some(d), Some(e)) => fsm.contains_key(e@) && description_of(fsm[e@].content) == Some(
                d@,
            ),
            (None, Some(e)) => fsm.contains_key(e@) && description_of(fsm[e@].content) is None,
            (None, None) => true,
            (Some(_), None) => false,
        })
    }

    /// Everything `parse_single_file` promises about a parsed one-file skill.
    pub open spec fn parsed_single_skill(
        fsm: Map<Seq<char>, FsNode>,
        path: Seq<char>,
        agent: AgentType,
        s: Skill,
    ) -> bool {
        &&& fsm.contains_key(path)
        &&& !fsm[path].is_dir
        &&& s.name@ == stem_of(basename_of(path))
        &&& s.folder_path@ == path
        &&& s.agent.eq_spec_fn(&agent)
        &&& s.is_folder == false
        &&& s.is_local == true
        &&& s.file_count == 1
        &&& s.files@.len() == 1
        &&& s.files@[0].name@ == stem_of(basename_of(path))
        &&& s.files@[0].file_path@ == path
        &&& s.files@[0].is_entry == true
        &&& s.files@[0].format == format_from_ext_spec(ext_of(basename_of(path)))
        &&& (s.entry_file matches Some(e) && e@ == path)
        &&& s.created_at as int == fsm[path].modified_at
        &&& s.updated_at as int == fsm[path].modified_at
        &&& (match s.description {
            Some(d) => description_of(fsm[path].content) == Some(d@),
            None => description_of(fsm[path].content) is None,
        })
    }

    /// Sort a skill's files: the entry first, the rest by name.
    #[verifier::rlimit(100)]
    fn sort_files(v: Vec<SkillFile>) -> (r: Vec<SkillFile>)
        ensures
            exists|perm: Seq<int>, pos: Seq<int>| #[trigger]
                Self::files_permuted(perm, pos, v@, r@),
            forall|q1: int, q2: int| 0 <= q1 < q2 < r@.len() ==> file_le(r@[q1], r@[q2]),
    {
        let total = v.len();
        let mut out: Vec<SkillFile> = Vec::new();
        let ghost mut perm = Seq::<int>::empty();
        let ghost mut pos = Seq::<int>::empty();
        let mut m: usize = 0;
        while m < total
            invariant
                total == v@.len(),
                m <= total,
                out@.len() == m,
                perm.len() == m,
                pos.len() == m,
                forall|q: int| #![trigger perm[q]]
                    0 <= q < out@.len() ==> 0 <= perm[q] < m && out@[q] == v@[perm[q]],
                forall|q1: int, q2: int| 0 <= q1 < q2 < out@.len() ==> perm[q1] != perm[q2],
                forall|j: int| #![trigger pos[j]]
                    0 <= j < m ==> 0 <= pos[j] < out@.len() && perm[pos[j]] == j && out@[pos[j]]
                        == v@[j],
                forall|q1: int, q2: int| 0 <= q1 < q2 < out@.len() ==> file_le(out@[q1], out@[q2]),
            decreases total - m,
        {
            let ghost out0 = out@;
            let ghost perm0 = perm;
            let ghost pos0 = pos;
            let x = v[m].clone();
            let ghost xg = x;
            insert_by_order(&mut out, x);
            proof {
                let p = choose|p: int|
                    {
                        &&& 0 <= p <= out0.len()
                        &&& #[trigger] out@[p] == xg
                        &&& (forall|q: int| 0 <= q < p ==> out@[q] == out0[q])
                        &&& (forall|q: int| p < q < out@.len() ==> out@[q] == out0[q - 1])
                    };
                perm = perm0.insert(p, m as int);
                pos = pos0.map_values(
                    |t: int|
                        if t >= p {
                            t + 1
                        } else {
                            t
                        },
                ).push(p);
                assert(xg == v@[m as int]);
                assert(perm[p] == m as int);
                assert(forall|q: int| 0 <= q < p ==> perm[q] == perm0[q]);
                assert(forall|q: int| p < q < perm.len() ==> perm[q] == perm0[q - 1]);
                assert(pos[m as int] == p);
                assert(forall|j: int|
                    0 <= j < m ==> pos[j] == (if pos0[j] >= p {
                        pos0[j] + 1
                    } else {
                        pos0[j]
                    }));
                assert forall|q: int| #![trigger perm[q]]
                    0 <= q < out@.len() implies 0 <= perm[q] <= m as int && out@[q] == v@[perm[q]]
                    by {
                    if q < p {
                        assert(perm[q] == perm0[q] && out@[q] == out0[q]);
                    } else if q > p {
                        assert(perm[q] == perm0[q - 1] && out@[q] == out0[q - 1]);
                    }
                }
                assert forall|q1: int, q2: int|
                    0 <= q1 < q2 < out@.len() implies perm[q1] != perm[q2] by {
                    let j1 = if q1 < p {
                        perm0[q1]
                    } else if q1 == p {
                        m as int
                    } else {
                        perm0[q1 - 1]
                    };
                    let j2 = if q2 < p {
                        perm0[q2]
                    } else if q2 == p {
                        m as int
                    } else {
                        perm0[q2 - 1]
                    };
                    assert(perm[q1] == j1 && perm[q2] == j2);
                    if q1 == p {
                        assert(perm0[q2 - 1] < m as int);
                    } else if q2 == p {
                        assert(perm0[q1] < m as int);
                    }
                }
                assert forall|j: int| #![trigger pos[j]]
                    0 <= j <= m as int implies 0 <= pos[j] < out@.len() && perm[pos[j]] == j
                    && out@[pos[j]] == v@[j] by {
                    if j < m as int {
                        let t = pos0[j];
                        if t >= p {
                            assert(pos[j] == t + 1);
                            assert(out@[t + 1] == out0[t]);
                            assert(perm[t + 1] == perm0[t]);
                        } else {
                            assert(pos[j] == t);
                            assert(out@[t] == out0[t]);
                            assert(perm[t] == perm0[t]);
                        }
                    } else {
                        assert(pos[j] == p);
                    }
                }
            }
            m += 1;
        }
        proof {
            assert(Self::files_permuted(perm, pos, v@, out@));
        }
        out
    }

    /// Collect, flag and order a folder's files.
    #[verifier::rlimit(100)]
    fn catalog_files(fs: &FsState, folder_path: &str, folder_name: &str) -> (r: Vec<SkillFile>)
        requires
            fs.wf(),
        ensures
            Self::good_file_list(fs@, folder_path@, folder_name@, r@),
    {
        let raw = Self::files_under(fs, folder_path);
        let ghost rawg = raw@;
        let arranged: Vec<SkillFile>;
        match Self::pick_entry(&raw, folder_path, folder_name) {
            Some(b) => {
                arranged = Self::arrange_files(raw, b);
                proof {
                    let files = arranged;
                    let bb = b as int;
                    let n = rawg.len();
                    assert forall|m: int|
                        0 <= m < files@.len() implies file_matches_fs(
                        fs@,
                        folder_path@,
                        #[trigger] files@[m],
                    ) by {
                        let j = if m == 0 {
                            bb
                        } else if m <= bb {
                            m - 1
                        } else {
                            m
                        };
                        assert(file_matches_fs(fs@, folder_path@, rawg[j]));
                    }
                    assert forall|k: Seq<char>|
                        fs@.contains_key(k) && is_strictly_under(k, folder_path@)
                            && !fs@[k].is_dir implies exists|m: int|
                        0 <= m < files@.len() && #[trigger] files@[m].file_path@ == k by {
                        let j = choose|j: int|
                            0 <= j < rawg.len() && #[trigger] rawg[j].file_path@ == k;
                        let t = if j == bb {
                            0
                        } else if j < bb {
                            j + 1
                        } else {
                            j
                        };
                        assert(files@[t].file_path@ == k);
                    }
                    assert forall|m1: int, m2: int|
                        0 <= m1 < m2 < files@.len() implies files@[m1].file_path@
                        != files@[m2].file_path@ by {
                        let j1 = if m1 == 0 {
                            bb
                        } else if m1 <= bb {
                            m1 - 1
                        } else {
                            m1
                        };
                        let j2 = if m2 == 0 {
                            bb
                        } else if m2 <= bb {
                            m2 - 1
                        } else {
                            m2
                        };
                        assert(files@[m1].file_path@ == rawg[j1].file_path@);
                        assert(files@[m2].file_path@ == rawg[j2].file_path@);
                        if j1 < j2 {
                            assert(rawg[j1].file_path@ != rawg[j2].file_path@);
                        } else {
                            assert(rawg[j2].file_path@ != rawg[j1].file_path@);
                        }
                    }
                    if exists|m: int|
                        0 <= m < files@.len() && is_child_of(
                            #[trigger] files@[m].file_path@,
                            folder_path@,
                        ) && files@[m].name@ == "skill.md"@ {
                        let m = choose|m: int|
                            0 <= m < files@.len() && is_child_of(
                                #[trigger] files@[m].file_path@,
                                folder_path@,
                            ) && files@[m].name@ == "skill.md"@;
                        let j = if m == 0 {
                            bb
                        } else if m <= bb {
                            m - 1
                        } else {
                            m
                        };
                        assert(is_child_of(rawg[j].file_path@, folder_path@) && rawg[j].name@
                            == "skill.md"@);
                        assert(rawg[bb].name@ == "skill.md"@);
                        assert(files@[0].is_entry && files@[0].name@ == "skill.md"@);
                    }
                    if exists|m: int|
                        0 <= m < files@.len() && is_child_of(
                            #[trigger] files@[m].file_path@,
                            folder_path@,
                        ) && entry_rank(files@[m].name@, folder_name@) < 2 {
                        assert(files@[0].is_entry);
                    }
                    assert(Self::good_file_set(fs@, folder_path@, folder_name@, arranged@));
                }
            },
            None => {
                arranged = raw;
                proof {
                    assert(forall|m: int|
                        0 <= m < rawg.len() && is_child_of(
                            #[trigger] rawg[m].file_path@,
                            folder_path@,
                        ) ==> entry_rank(rawg[m].name@, folder_name@) >= 2);
                    assert(Self::good_file_set(fs@, folder_path@, folder_name@, arranged@)) by {
                        if exists|m: int|
                            0 <= m < rawg.len() && is_child_of(
                                #[trigger] rawg[m].file_path@,
                                folder_path@,
                            ) && rawg[m].name@ == "skill.md"@ {
                            let m = choose|m: int|
                                0 <= m < rawg.len() && is_child_of(
                                    #[trigger] rawg[m].file_path@,
                                    folder_path@,
                                ) && rawg[m].name@ == "skill.md"@;
                            assert(entry_rank(rawg[m].name@, folder_name@) == 0);
                            assert(false);
                        }
                        if exists|m: int|
                            0 <= m < rawg.len() && is_child_of(
                                #[trigger] rawg[m].file_path@,
                                folder_path@,
                            ) && entry_rank(rawg[m].name@, folder_name@) < 2 {
                            let m = choose|m: int|
                                0 <= m < rawg.len() && is_child_of(
                                    #[trigger] rawg[m].file_path@,
                                    folder_path@,
                                ) && entry_rank(rawg[m].name@, folder_name@) < 2;
                            assert(false);
                        }
                    }
                }
            },
        }
        let sorted = Self::sort_files(arranged);
        proof {
            let (perm, pos) = choose|perm: Seq<int>, pos: Seq<int>| #[trigger]
                Self::files_permuted(perm, pos, arranged@, sorted@);
            Self::lemma_good_set_transfers(
                fs@,
                folder_path@,
                folder_name@,
                perm,
                pos,
                arranged@,
                sorted@,
            );
            assert forall|m: int|
                0 <= m < sorted@.len() && #[trigger] sorted@[m].is_entry implies m == 0 by {
                if m > 0 {
                    assert(file_le(sorted@[0], sorted@[m]));
                    if !sorted@[0].is_entry {
                        assert(!file_le(sorted@[0], sorted@[m]));
                    }
                    assert(!(sorted@[0].is_entry && sorted@[m].is_entry));
                }
            }
        }
        sorted
    }

    /// Parse one skills folder into a Skill: every file below it, the entry
    /// decided by precedence and placed first, the rest ordered by name, the
    /// description taken from the entry file, timestamps from the folder.
    pub fn parse_skill_folder(fs: &FsState, folder_path: &str, agent: &AgentType) -> (r: Result<
        Skill,
        AppError,
    >)
        requires
            fs.wf(),
        ensures
            r is Ok <==> (fs@.contains_key(folder_path@) && fs@[folder_path@].is_dir),
            r is Err ==> r->Err_0 is FileNotFound,
            r is Ok ==> Self::parsed_folder_skill(fs@, folder_path@, *agent, r->Ok_0),
    {
        let node_mtime: i64;
        match fs.get_entry(folder_path) {
            Some(e) => {
                if !e.is_dir {
                    return Err(AppError::FileNotFound(folder_path.to_owned()));
                }
                node_mtime = e.modified_at;
            },
            None => {
                return Err(AppError::FileNotFound(folder_path.to_owned()));
            },
        }
        let folder_name = path_basename(folder_path);
        let files = Self::catalog_files(fs, folder_path, folder_name.as_str());
        // entry path and description
        let mut entry_file: Option<String> = None;
        let mut q: usize = 0;
        let flen = files.len();
        while q < flen && entry_file.is_none()
            invariant
                flen == files@.len(),
                q <= flen,
                entry_file is None ==> forall|m2: int| 0 <= m2 < q ==> !files@[m2].is_entry,
                match entry_file {
                    Some(e) => exists|m2: int|
                        0 <= m2 < files@.len() && #[trigger] files@[m2].is_entry
                            && files@[m2].file_path@ == e@,
                    None => true,
                },
            decreases flen - q,
        {
            if files[q].is_entry {
                entry_file = Some(files[q].file_path.clone());
            }
            q += 1;
        }
        let description: Option<String> = match &entry_file {
            Some(e) => {
                match fs.get_entry(e.as_str()) {
                    Some(node) => extract_description(node.content.as_str()),
                    None => {
                        proof {
                            let m2 = choose|m2: int|
                                0 <= m2 < files@.len() && #[trigger] files@[m2].is_entry
                                    && files@[m2].file_path@ == e@;
                            assert(file_matches_fs(fs@, folder_path@, files@[m2]));
                            assert(false);
                        }
                        None
                    },
                }
            },
            None => None,
        };
        let count = files.len();
        Ok(
            Skill {
                id: crate::external::fresh_skill_id(),
                name: folder_name,
                description,
                folder_path: folder_path.to_owned(),
                agent: agent.clone(),
                files,
                entry_file,
                tags: Vec::new(),
                version: None,
                author: None,
                is_local: true,
                is_folder: true,
                file_count: count,
                created_at: node_mtime,
                updated_at: node_mtime,
            },
        )
    }

    /// Parse one bare configuration file as a single-file skill.
    pub fn parse_single_file(fs: &FsState, path: &str, agent: &AgentType) -> (r: Result<
        Skill,
        AppError,
    >)
        requires
            fs.wf(),
        ensures
            r is Ok <==> (fs@.contains_key(path@) && !fs@[path@].is_dir),
            r is Err ==> r->Err_0 is FileNotFound,
            r is Ok ==> Self::parsed_single_skill(fs@, path@, *agent, r->Ok_0),
    {
        let node = match fs.get_entry(path) {
            Some(e) => {
                if e.is_dir {
                    return Err(AppError::FileNotFound(path.to_owned()));
                }
                e
            },
            None => {
                return Err(AppError::FileNotFound(path.to_owned()));
            },
        };
        let base = path_basename(path);
        let ext = name_extension(base.as_str());
        let format = SkillFormat::from_extension(ext.as_str());
        let name = name_stem(base.as_str());
        let description = extract_description(node.content.as_str());
        let file = SkillFile {
            name: name.clone(),
            file_path: path.to_owned(),
            format,
            is_entry: true,
            size: node.content.as_str().len() as u64,
        };
        let mut files: Vec<SkillFile> = Vec::new();
        files.push(file);
        Ok(
            Skill {
                id: crate::external::fresh_skill_id(),
                name,
                description,
                folder_path: path.to_owned(),
                agent: agent.clone(),
                files,
                entry_file: Some(path.to_owned()),
                tags: Vec::new(),
                version: None,
                author: None,
                is_local: true,
                is_folder: false,
                file_count: 1,
                created_at: node.modified_at,
                updated_at: node.modified_at,
            },
        )
    }
}

// ---------------------------------------------------------------------------
// Glob patterns and scanning drivers
// ---------------------------------------------------------------------------

/// The stem of a file name: everything before the first `.`, or the whole
/// name when it has none.
pub open spec fn stem_of(s: Seq<char>) -> Seq<char> {
    if crate::text::first_sub_at(s, seq!['.']) == -1 {
        s
    } else {
        s.take(crate::text::first_sub_at(s, seq!['.']))
    }
}

/// The stem of a file name.
pub fn name_stem(name: &str) -> (r: String)
    ensures
        r@ == stem_of(name@),
{
    proof {
        reveal_strlit(".");
        assert("."@ =~= seq!['.']);
    }
    match crate::text::find_sub(name, ".") {
        None => name.to_owned(),
        Some(d) => String::from_str(name.substring_char(0, d)),
    }
}

/// Star-wildcard matching: `*` matches any run of characters other than `/`.
pub open spec fn glob_match(p: Seq<char>, s: Seq<char>) -> bool
    decreases p.len(), s.len(),
{
    if p.len() == 0 {
        s.len() == 0
    } else if p[0] == '*' {
        glob_match(p.skip(1), s) || (s.len() > 0 && s[0] != '/' && glob_match(p, s.skip(1)))
    } else {
        s.len() > 0 && s[0] == p[0] && glob_match(p.skip(1), s.skip(1))
    }
}

/// Match a relative path against a star-wildcard pattern.
pub fn glob_matches(pattern: &str, s: &str) -> (r: bool)
    ensures
        r == glob_match(pattern@, s@),
    decreases pattern@.len(), s@.len(),
{
    let np = pattern.unicode_len();
    let ns = s.unicode_len();
    if np == 0 {
        return ns == 0;
    }
    let c = pattern.get_char(0);
    let p1 = pattern.substring_char(1, np);
    if c == '*' {
        if glob_matches(p1, s) {
            return true;
        }
        if ns > 0 && s.get_char(0) != '/' {
            let s1 = s.substring_char(1, ns);
            return glob_matches(pattern, s1);
        }
        false
    } else {
        if ns > 0 && s.get_char(0) == c {
            let s1 = s.substring_char(1, ns);
            glob_matches(p1, s1)
        } else {
            false
        }
    }
}

/// Which fixed agent a configuration path belongs to, by its directory name.
pub open spec fn agent_of_path(p: Seq<char>) -> AgentType {
    if crate::text::contains_sub(p, ".quill"@) {
        AgentType::Quill
    } else if crate::text::contains_sub(p, ".cursor"@) {
        AgentType::Cursor
    } else if crate::text::contains_sub(p, ".continue"@) {
        AgentType::ContinueDev
    } else if crate::text::contains_sub(p, ".aider"@) {
        AgentType::Aider
    } else if crate::text::contains_sub(p, ".codeium"@) {
        AgentType::Windsurf
    } else {
        AgentType::Quill  /* placeholder: the open variant is carried below */
    }
}

/// Is the path under one of the fixed agents' dot-directories?
pub open spec fn path_names_known_agent(p: Seq<char>) -> bool {
    crate::text::contains_sub(p, ".quill"@) || crate::text::contains_sub(p, ".cursor"@)
        || crate::text::contains_sub(p, ".continue"@) || crate::text::contains_sub(p, ".aider"@)
        || crate::text::contains_sub(p, ".codeium"@)
}

impl SkillService {
    /// Guess the agent a path belongs to from the dot-directory in it; an
    /// unknown path yields the open variant.
    pub fn detect_agent_from_path(path: &str) -> (r: AgentType)
        ensures
            path_names_known_agent(crate::agent::lower_seq(path@)) ==> r == agent_of_path(
                crate::agent::lower_seq(path@),
            ),
            !path_names_known_agent(crate::agent::lower_seq(path@)) ==> (
            r matches AgentType::Custom(n) && n@ == "Unknown"@),
    {
        let lower = crate::agent::ascii_lower(path);
        let l = lower.as_str();
        if crate::text::str_contains(l, ".quill") {
            AgentType::Quill
        } else if crate::text::str_contains(l, ".cursor") {
            AgentType::Cursor
        } else if crate::text::str_contains(l, ".continue") {
            AgentType::ContinueDev
        } else if crate::text::str_contains(l, ".aider") {
            AgentType::Aider
        } else if crate::text::str_contains(l, ".codeium") {
            AgentType::Windsurf
        } else {
            AgentType::Custom(String::from_str("Unknown"))
        }
    }

    /// Every skill in `v` is the parse of a distinct immediate subdirectory
    /// of the skills directory `sd`, and every such subdirectory is
    /// represented.
    pub open spec fn folder_scan_ok(
        fsm: Map<Seq<char>, FsNode>,
        sd: Seq<char>,
        agent: AgentType,
        v: Seq<Skill>,
    ) -> bool {
        &&& forall|m: int| #![trigger v[m]]
            0 <= m < v.len() ==> is_child_of(v[m].folder_path@, sd)
                && Self::parsed_folder_skill(fsm, v[m].folder_path@, agent, v[m])
        &&& forall|d: Seq<char>| #![trigger fsm.contains_key(d), is_child_of(d, sd)]
            fsm.contains_key(d) && is_child_of(d, sd) && fsm[d].is_dir ==> exists|m: int|
                0 <= m < v.len() && #[trigger] v[m].folder_path@ == d
        &&& forall|m1: int, m2: int|
            0 <= m1 < m2 < v.len() ==> v[m1].folder_path@ != v[m2].folder_path@
    }

    /// The skill is the parse of a file under the configuration directory
    /// that matches one of the loose-file patterns and lies outside the
    /// skills directory.
    pub open spec fn matched_single_skill(fsm: Map<Seq<char>, FsNode>, config: AgentConfig, s: Skill) -> bool {
        let p = s.folder_path@;
        &&& is_strictly_under(p, config.config_dir@)
        &&& (match config.skills_dir {
            Some(sd) => !crate::paths::is_within(p, sd@),
            None => true,
        })
        &&& (exists|pi: int|
            0 <= pi < config.file_patterns@.len() && !crate::text::contains_sub(
                (#[trigger] config.file_patterns@[pi])@,
                "skills/"@,
            ) && glob_match(config.file_patterns@[pi]@, child_name(p, config.config_dir@)))
        &&& Self::parsed_single_skill(fsm, p, config.agent, s)
    }

    /// Every skill in `v` is a matched loose file, and every file matching
    /// some pattern (those not reaching into `skills/`) outside the skills
    /// directory is represented.
    pub open spec fn file_scan_ok(fsm: Map<Seq<char>, FsNode>, config: AgentConfig, v: Seq<Skill>) -> bool {
        &&& forall|m: int| #![trigger v[m]]
            0 <= m < v.len() ==> Self::matched_single_skill(fsm, config, v[m])
        &&& forall|pi: int, k: Seq<char>|
            #![trigger config.file_patterns@[pi], fsm.contains_key(k)]
            0 <= pi < config.file_patterns@.len() && !crate::text::contains_sub(
                config.file_patterns@[pi]@,
                "skills/"@,
            ) && fsm.contains_key(k) && is_strictly_under(k, config.config_dir@) && !fsm[k].is_dir
                && (match config.skills_dir {
                Some(sd) => !crate::paths::is_within(k, sd@),
                None => true,
            }) && glob_match(config.file_patterns@[pi]@, child_name(k, config.config_dir@))
                ==> Self::skill_path_listed(v, k)
    }

    /// Some skill in `v` stands at this path.
    pub open spec fn skill_path_listed(v: Seq<Skill>, k: Seq<char>) -> bool {
        exists|m: int| 0 <= m < v.len() && (#[trigger] v[m]).folder_path@ == k
    }

    /// Appending to the catalog keeps every path listed.
    proof fn lemma_skill_path_listed_push(v: Seq<Skill>, x: Skill, k: Seq<char>)
        requires
            Self::skill_path_listed(v, k),
        ensures
            Self::skill_path_listed(v.push(x), k),
    {
        let m = choose|m: int| 0 <= m < v.len() && (#[trigger] v[m]).folder_path@ == k;
        assert(v.push(x)[m] == v[m]);
    }

    /// One scan of one agent: the folder skills of its skills directory,
    /// followed by its matched loose configuration files.
    pub open spec fn agent_scan_ok(fsm: Map<Seq<char>, FsNode>, config: AgentConfig, v: Seq<Skill>) -> bool {
        exists|a: Seq<Skill>, b: Seq<Skill>|
            #![trigger a + b]
            {
                &&& v == a + b
                &&& (match config.skills_dir {
                    Some(sd) => Self::folder_scan_ok(fsm, sd@, config.agent, a),
                    None => a == Seq::<Skill>::empty(),
                })
                &&& Self::file_scan_ok(fsm, config, b)
            }
    }

    /// Each immediate subdirectory of the skills directory becomes one
    /// folder skill, in enumeration order.
    fn scan_skills_dir(fs: &FsState, sd: &str, agent: &AgentType) -> (v: Vec<Skill>)
        requires
            fs.wf(),
        ensures
            Self::folder_scan_ok(fs@, sd@, *agent, v@),
    {
        let kids = fs.child_paths(sd);
        let n = kids.len();
        let mut v: Vec<Skill> = Vec::new();
        let mut i: usize = 0;
        while i < n
            invariant
                fs.wf(),
                n == kids@.len(),
                i <= n,
                forall|m: int|
                    0 <= m < kids@.len() ==> fs@.contains_key(#[trigger] kids@[m]@) && is_child_of(
                        kids@[m]@,
                        sd@,
                    ),
                forall|k: Seq<char>|
                    fs@.contains_key(k) && is_child_of(k, sd@) ==> exists|m: int|
                        0 <= m < kids@.len() && #[trigger] kids@[m]@ == k,
                forall|m1: int, m2: int| 0 <= m1 < m2 < kids@.len() ==> kids@[m1]@ != kids@[m2]@,
                forall|m: int| #![trigger v@[m]]
                    0 <= m < v@.len() ==> is_child_of(v@[m].folder_path@, sd@)
                        && Self::parsed_folder_skill(fs@, v@[m].folder_path@, *agent, v@[m]),
                forall|j: int|
                    0 <= j < i && fs@[#[trigger] kids@[j]@].is_dir ==> exists|m: int|
                        0 <= m < v@.len() && #[trigger] v@[m].folder_path@ == kids@[j]@,
                forall|m: int| #![trigger v@[m]]
                    0 <= m < v@.len() ==> exists|j: int| 0 <= j < i && v@[m].folder_path@
                        == kids@[j]@,
                forall|m1: int, m2: int|
                    0 <= m1 < m2 < v@.len() ==> v@[m1].folder_path@ != v@[m2].folder_path@,
            decreases n - i,
        {
            let is_dir = match fs.get_entry(kids[i].as_str()) {
                Some(e) => e.is_dir,
                None => false,
            };
            if is_dir {
                match Self::parse_skill_folder(fs, kids[i].as_str(), agent) {
                    Ok(s) => {
                        let ghost v0 = v@;
                        v.push(s);
                        proof {
                            assert(v@.drop_last() =~= v0);
                            assert(v@[v@.len() - 1].folder_path@ == kids@[i as int]@);
                            assert forall|m1: int, m2: int|
                                0 <= m1 < m2 < v@.len() implies v@[m1].folder_path@
                                != v@[m2].folder_path@ by {
                                if m2 == v@.len() - 1 {
                                    let j = choose|j: int|
                                        0 <= j < i && v@[m1].folder_path@ == #[trigger] kids@[j]@;
                                    assert(kids@[j]@ != kids@[i as int]@);
                                }
                            }
                        }
                    },
                    Err(_) => {
                        proof {
                            assert(false);
                        }
                    },
                }
            }
            i += 1;
        }
        proof {
            assert forall|d: Seq<char>|
                fs@.contains_key(d) && is_child_of(d, sd@) && fs@[d].is_dir implies exists|m: int|
                0 <= m < v@.len() && #[trigger] v@[m].folder_path@ == d by {
                let j = choose|j: int| 0 <= j < kids@.len() && #[trigger] kids@[j]@ == d;
            }
        }
        v
    }

    /// Each file under the configuration directory matching a loose-file
    /// pattern and lying outside the skills directory becomes one
    /// single-file skill, once per pattern it matches.
    fn scan_config_files(fs: &FsState, config: &AgentConfig) -> (v: Vec<Skill>)
        requires
            fs.wf(),
        ensures
            Self::file_scan_ok(fs@, *config, v@),
    {
        let files = fs.subtree_paths(config.config_dir.as_str());
        let nf = files.len();
        let np = config.file_patterns.len();
        let mut v: Vec<Skill> = Vec::new();
        let mut pi: usize = 0;
        while pi < np
            invariant
                fs.wf(),
                np == config.file_patterns@.len(),
                nf == files@.len(),
                pi <= np,
                forall|m: int|
                    0 <= m < files@.len() ==> fs@.contains_key(#[trigger] files@[m]@)
                        && is_strictly_under(files@[m]@, config.config_dir@),
                forall|k: Seq<char>|
                    fs@.contains_key(k) && is_strictly_under(k, config.config_dir@) ==> exists|
                        m: int,
                    | 0 <= m < files@.len() && #[trigger] files@[m]@ == k,
                forall|m: int| #![trigger v@[m]]
                    0 <= m < v@.len() ==> Self::matched_single_skill(fs@, *config, v@[m]),
                forall|pi2: int, k: Seq<char>|
                    #![trigger config.file_patterns@[pi2], fs@.contains_key(k)]
                    0 <= pi2 < pi && !crate::text::contains_sub(
                        config.file_patterns@[pi2]@,
                        "skills/"@,
                    ) && fs@.contains_key(k) && is_strictly_under(k, config.config_dir@)
                        && !fs@[k].is_dir && (match config.skills_dir {
                        Some(sd) => !crate::paths::is_within(k, sd@),
                        None => true,
                    }) && glob_match(config.file_patterns@[pi2]@, child_name(k, config.config_dir@))
                        ==> Self::skill_path_listed(v@, k),
            decreases np - pi,
        {
            let pattern = &config.file_patterns[pi];
            if !crate::text::str_contains(pattern.as_str(), "skills/") {
                let mut fi: usize = 0;
                while fi < nf
                    invariant
                        fs.wf(),
                        np == config.file_patterns@.len(),
                        nf == files@.len(),
                        pi < np,
                        *pattern == config.file_patterns@[pi as int],
                        !crate::text::contains_sub(config.file_patterns@[pi as int]@, "skills/"@),
                        fi <= nf,
                        forall|m: int|
                            0 <= m < files@.len() ==> fs@.contains_key(#[trigger] files@[m]@)
                                && is_strictly_under(files@[m]@, config.config_dir@),
                        forall|m: int| #![trigger v@[m]]
                            0 <= m < v@.len() ==> Self::matched_single_skill(fs@, *config, v@[m]),
                        forall|pi2: int, k: Seq<char>|
                            #![trigger config.file_patterns@[pi2], fs@.contains_key(k)]
                            0 <= pi2 < pi && !crate::text::contains_sub(
                                config.file_patterns@[pi2]@,
                                "skills/"@,
                            ) && fs@.contains_key(k) && is_strictly_under(k, config.config_dir@)
                                && !fs@[k].is_dir && (match config.skills_dir {
                                Some(sd) => !crate::paths::is_within(k, sd@),
                                None => true,
                            }) && glob_match(
                                config.file_patterns@[pi2]@,
                                child_name(k, config.config_dir@),
                            ) ==> Self::skill_path_listed(v@, k),
                        forall|j: int|
                            #![trigger files@[j]]
                            0 <= j < fi && !fs@[files@[j]@].is_dir && (match config.skills_dir {
                                Some(sd) => !crate::paths::is_within(files@[j]@, sd@),
                                None => true,
                            }) && glob_match(
                                config.file_patterns@[pi as int]@,
                                child_name(files@[j]@, config.config_dir@),
                            ) ==> Self::skill_path_listed(v@, files@[j]@),
                    decreases nf - fi,
                {
                    let path = &files[fi];
                    let inside_skills = match &config.skills_dir {
                        Some(sd) => crate::paths::path_within(path.as_str(), sd.as_str()),
                        None => false,
                    };
                    if !inside_skills {
                        let rel = path_child_name(path.as_str(), config.config_dir.as_str());
                        if glob_matches(pattern.as_str(), rel.as_str()) {
                            let is_file = match fs.get_entry(path.as_str()) {
                                Some(e) => !e.is_dir,
                                None => false,
                            };
                            if is_file {
                                match Self::parse_single_file(fs, path.as_str(), &config.agent) {
                                    Ok(s) => {
                                        let ghost v0 = v@;
                                        let ghost x = s;
                                        v.push(s);
                                        proof {
                                            assert(v@.drop_last() =~= v0);
                                            assert(v@ == v0.push(x));
                                            assert(v@[v@.len() - 1].folder_path@
                                                == files@[fi as int]@);
                                            assert(Self::matched_single_skill(
                                                fs@,
                                                *config,
                                                v@[v@.len() - 1],
                                            )) by {
                                                let pp = pi as int;
                                                assert(0 <= pp && pp
                                                    < config.file_patterns@.len()
                                                    && !crate::text::contains_sub(
                                                    (config.file_patterns@[pp])@,
                                                    "skills/"@,
                                                ) && glob_match(
                                                    config.file_patterns@[pp]@,
                                                    child_name(
                                                        v@[v@.len() - 1].folder_path@,
                                                        config.config_dir@,
                                                    ),
                                                ));
                                            }
                                            assert(Self::skill_path_listed(
                                                v@,
                                                files@[fi as int]@,
                                            ));
                                            assert forall|k: Seq<char>|
                                                Self::skill_path_listed(
                                                    v0,
                                                    k,
                                                ) implies Self::skill_path_listed(v@, k) by {
                                                Self::lemma_skill_path_listed_push(v0, x, k);
                                            }
                                            assert forall|m: int| #![trigger v@[m]]
                                                0 <= m < v@.len()
                                                    implies Self::matched_single_skill(
                                                fs@,
                                                *config,
                                                v@[m],
                                            ) by {
                                                if m < v@.len() - 1 {
                                                    assert(v@[m] == v0[m]);
                                                }
                                            }
                                        }
                                    },
                                    Err(_) => {
                                        proof {
                                            assert(false);
                                        }
                                    },
                                }
                            }
                        }
                    }
                    fi += 1;
                }
                proof {
                    assert forall|k: Seq<char>|
                        fs@.contains_key(k) && is_strictly_under(k, config.config_dir@)
                            && !fs@[k].is_dir && (match config.skills_dir {
                            Some(sd) => !crate::paths::is_within(k, sd@),
                            None => true,
                        }) && glob_match(
                            config.file_patterns@[pi as int]@,
                            child_name(k, config.config_dir@),
                        ) implies Self::skill_path_listed(v@, k) by {
                        let j = choose|j: int|
                            0 <= j < files@.len() && #[trigger] files@[j]@ == k;
                        assert(!fs@[files@[j]@].is_dir);
                    }
                }
            }
            pi += 1;
        }
        v
    }

    /// Scan one agent's directories: each immediate subdirectory of the
    /// dedicated skills directory is a folder skill; each file under the
    /// configuration directory matching one of the patterns (those not
    /// reaching into `skills/`) and outside the skills directory is a
    /// single-file skill.
    pub fn scan_agent_skills(fs: &FsState, config: &AgentConfig) -> (r: Result<
        Vec<Skill>,
        AppError,
    >)
        requires
            fs.wf(),
        ensures
            r is Ok,
            Self::agent_scan_ok(fs@, *config, r->Ok_0@),
    {
        let mut a: Vec<Skill> = match &config.skills_dir {
            Some(sd) => Self::scan_skills_dir(fs, sd.as_str(), &config.agent),
            None => Vec::new(),
        };
        let ghost ag = a@;
        let mut b = Self::scan_config_files(fs, config);
        let ghost bg = b@;
        a.append(&mut b);
        proof {
            assert(a@ == ag + bg);
            assert(Self::agent_scan_ok(fs@, *config, a@)) by {
                match config.skills_dir {
                    Some(_) => {
                        assert(a@ == ag + bg && Self::file_scan_ok(fs@, *config, bg));
                    },
                    None => {
                        assert(ag =~= Seq::<Skill>::empty());
                        assert(a@ == ag + bg && Self::file_scan_ok(fs@, *config, bg));
                    },
                }
            }
        }
        Ok(a)
    }

    /// Scan every enabled agent, in configuration order: the catalog is the
    /// concatenation of the per-agent scans; disabled agents contribute
    /// nothing.
    pub fn scan_all_skills(fs: &FsState, configs: &Vec<AgentConfig>) -> (r: Result<
        Vec<Skill>,
        AppError,
    >)
        requires
            fs.wf(),
        ensures
            r is Ok,
            exists|parts: Seq<Seq<Skill>>|
                #![trigger parts.flatten()]
                {
                    &&& parts.len() == configs@.len()
                    &&& r->Ok_0@ == parts.flatten()
                    &&& forall|j: int|
                        #![trigger parts[j]]
                        0 <= j < parts.len() ==> if configs@[j].enabled {
                            Self::agent_scan_ok(fs@, configs@[j], parts[j])
                        } else {
                            parts[j] == Seq::<Skill>::empty()
                        }
                },
    {
        let mut all: Vec<Skill> = Vec::new();
        let ghost mut parts = Seq::<Seq<Skill>>::empty();
        let n = configs.len();
        let mut i: usize = 0;
        proof {
            assert(parts.flatten() =~= Seq::<Skill>::empty());
        }
        while i < n
            invariant
                fs.wf(),
                n == configs@.len(),
                i <= n,
                parts.len() == i,
                all@ == parts.flatten(),
                forall|j: int|
                    #![trigger parts[j]]
                    0 <= j < parts.len() ==> if configs@[j].enabled {
                        Self::agent_scan_ok(fs@, configs@[j], parts[j])
                    } else {
                        parts[j] == Seq::<Skill>::empty()
                    },
            decreases n - i,
        {
            let ghost parts0 = parts;
            if configs[i].enabled {
                match Self::scan_agent_skills(fs, &configs[i]) {
                    Ok(mut skills) => {
                        let ghost g = skills@;
                        all.append(&mut skills);
                        proof {
                            parts = parts.push(g);
                            parts0.lemma_flatten_push(g);
                            assert(parts.drop_last() =~= parts0);
                        }
                    },
                    Err(_) => {
                        proof {
                            assert(false);
                        }
                    },
                }
            } else {
                proof {
                    parts = parts.push(Seq::<Skill>::empty());
                    parts0.lemma_flatten_push(Seq::<Skill>::empty());
                    assert(parts.flatten() =~= parts0.flatten());
                    assert(parts.drop_last() =~= parts0);
                }
            }
            i += 1;
        }
        Ok(all)
    }

    /// Duplicate a skill folder beside itself under a slug of the new name
    /// (lower-cased, spaces become dashes), and parse the copy.
    pub fn duplicate_skill(fs: &mut FsState, folder_path: &str, new_name: &str, now: i64) -> (r:
        Result<Skill, AppError>)
        requires
            old(fs).wf(),
        ensures
            final(fs).wf(),
            ({
                let dest = crate::paths::path_join_spec(
                    crate::paths::parent_of(folder_path@),
                    slug_spec(new_name@),
                );
                match r {
                    Ok(s) => {
                        &&& s.folder_path@ == dest
                        &&& s.is_folder
                        &&& Self::parsed_folder_skill(final(fs)@, dest, s.agent, s)
                        &&& forall|k: Seq<char>| #[trigger]
                            old(fs)@.contains_key(k) ==> final(fs)@.contains_key(k)
                                && final(fs)@[k] == old(fs)@[k]
                        &&& forall|k0: Seq<char>|
                            old(fs)@.contains_key(k0) && crate::paths::is_within(
                                k0,
                                folder_path@,
                            ) ==> {
                                let kr = #[trigger] crate::paths::rebase(k0, folder_path@, dest);
                                &&& final(fs)@.contains_key(kr)
                                &&& final(fs)@[kr].is_dir == old(fs)@[k0].is_dir
                                &&& final(fs)@[kr].content == old(fs)@[k0].content
                            }
                        &&& forall|k: Seq<char>| #[trigger]
                            final(fs)@.contains_key(k) ==> old(fs)@.contains_key(k)
                                || crate::paths::is_within(k, dest)
                    },
                    Err(e) => {
                        &&& final(fs)@ == old(fs)@
                        &&& e is FileNotFound || e is AlreadyExists || e is InvalidPath
                        &&& (e is FileNotFound <==> !old(fs)@.contains_key(folder_path@))
                        &&& (e is AlreadyExists <==> old(fs)@.contains_key(folder_path@) && old(
                            fs,
                        )@[folder_path@].is_dir && !crate::fsmodel::map_subtree_vacant(
                            old(fs)@,
                            dest,
                        ))
                        &&& (e is InvalidPath <==> old(fs)@.contains_key(folder_path@) && (!old(
                            fs,
                        )@[folder_path@].is_dir || (crate::fsmodel::map_subtree_vacant(
                            old(fs)@,
                            dest,
                        ) && crate::paths::is_within(dest, folder_path@))))
                    },
                }
            }),
    {
        let src_is_dir = match fs.get_entry(folder_path) {
            Some(e) => e.is_dir,
            None => {
                return Err(AppError::FileNotFound(folder_path.to_owned()));
            },
        };
        if !src_is_dir {
            return Err(AppError::InvalidPath(folder_path.to_owned()));
        }
        let parent = crate::paths::path_parent(folder_path);
        let slug = make_slug(new_name);
        let dest = crate::paths::path_join(parent.as_str(), slug.as_str());
        if !fs.subtree_vacant(dest.as_str()) {
            return Err(AppError::AlreadyExists(dest));
        }
        if crate::paths::path_within(dest.as_str(), folder_path) {
            return Err(AppError::InvalidPath(dest));
        }
        fs.copy_subtree(folder_path, dest.as_str(), now);
        let agent = Self::detect_agent_from_path(dest.as_str());
        match Self::parse_skill_folder(fs, dest.as_str(), &agent) {
            Ok(s) => {
                proof {
                    // the parse promise holds with the skill's own agent in
                    // the agent slot, since agent equality is reflexive
                    assert(s.agent.eq_spec_fn(&s.agent)) by {
                        match s.agent {
                            AgentType::Custom(n) => {
                                assert(n@ == n@);
                            },
                            _ => {},
                        }
                    }
                }
                Ok(s)
            },
            Err(_) => {
                proof {
                    assert(crate::paths::rebase(folder_path@, folder_path@, dest@) =~= dest@);
                    assert(false);
                }
                Err(AppError::NotFound(dest))
            },
        }
    }
}

/// The slug of a duplicated skill's name: lower-cased, spaces become dashes.
pub open spec fn slug_char(c: char) -> char {
    if c == ' ' {
        '-'
    } else {
        crate::agent::lower_char_spec(c)
    }
}

pub open spec fn slug_spec(s: Seq<char>) -> Seq<char> {
    s.map_values(|c: char| slug_char(c))
}

/// Lower-case a name and replace spaces with dashes.
pub fn make_slug(name: &str) -> (r: String)
    ensures
        r@ == slug_spec(name@),
{
    let n = name.unicode_len();
    let mut r = String::new();
    let mut i: usize = 0;
    while i < n
        invariant
            n == name@.len(),
            i <= n,
            r@ == slug_spec(name@.take(i as int)),
        decreases n - i,
    {
        let c = name.get_char(i);
        let sc: char = if c == ' ' {
            '-'
        } else if 'A' <= c && c <= 'Z' {
            proof {
                vstd::utf8::char_is_scalar(c);
            }
            (((c as u32) + 32) as u8) as char
        } else {
            c
        };
        push_char(&mut r, sc);
        proof {
            assert(sc == slug_char(name@[i as int]));
            assert(r@ =~= slug_spec(name@.take(i + 1)));
        }
        i += 1;
    }
    proof {
        assert(name@.take(n as int) =~= name@);
    }
    r
}


} // verus!
