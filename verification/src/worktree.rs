//! Per-ticket branches and worktrees: the branch name a ticket gets, where
//! its worktree lives, how an existing branch is recognised, and which files
//! are copied into a fresh worktree.
//!
//! Running `git` and touching the file system are done by the caller.

use vstd::prelude::*;
use crate::text::{
    char_alphanumeric, str_lowercase, split_at_char, pieces_view, split_chars, lemma_split_nonempty,
    chars_of, to_lowercase, is_alphanumeric, push_char, push_str, owned, string_from_chars,
    trim_ws, trim_chars, strings_view, string_from_range, has_prefix,
};
use crate::db::RepoRow;

verus! {

// ---------------------------------------------------------------------------
// Branch names

/// How many bytes of the title's slug a branch name keeps.
pub const SLUG_MAX_BYTES: usize = 50;

/// The characters with every one that is not alphanumeric turned into a dash.
pub open spec fn dash_mapped(s: Seq<char>) -> Seq<char> {
    s.map_values(|c: char| if char_alphanumeric(c) { c } else { '-' })
}

/// The pieces that are not empty, in order.
pub open spec fn nonempty_pieces(ps: Seq<Seq<char>>) -> Seq<Seq<char>>
    decreases ps.len(),
{
    if ps.len() == 0 {
        seq![]
    } else {
        let r = nonempty_pieces(ps.drop_last());
        if ps.last().len() > 0 {
            r.push(ps.last())
        } else {
            r
        }
    }
}

/// The pieces joined with single dashes.
pub open spec fn join_dashes(ps: Seq<Seq<char>>) -> Seq<char>
    decreases ps.len(),
{
    if ps.len() == 0 {
        seq![]
    } else if ps.len() == 1 {
        ps[0]
    } else {
        join_dashes(ps.drop_last()) + seq!['-'] + ps.last()
    }
}

/// The slug of a title: lower-cased, every run of characters that are not
/// alphanumeric turned into one dash, and no dash at either end.
pub open spec fn slug_of(title: Seq<char>) -> Seq<char> {
    slug_of_lowered(str_lowercase(title))
}

/// The slug of a title that is already lower-cased.
pub open spec fn slug_of_lowered(lower: Seq<char>) -> Seq<char> {
    join_dashes(nonempty_pieces(split_at_char(dash_mapped(lower), '-')))
}

/// How many bytes the UTF-8 encoding of a character takes.
pub open spec fn utf8_width(c: char) -> nat {
    if (c as u32) < 0x80 {
        1
    } else if (c as u32) < 0x800 {
        2
    } else if (c as u32) < 0x10000 {
        3
    } else {
        4
    }
}

/// How many bytes the UTF-8 encoding of a string takes.
pub open spec fn utf8_len(s: Seq<char>) -> nat
    decreases s.len(),
{
    if s.len() == 0 {
        0
    } else {
        utf8_width(s[0]) + utf8_len(s.drop_first())
    }
}

/// The longest prefix of `s` whose encoding fits in `n` bytes.
pub open spec fn take_bytes(s: Seq<char>, n: nat) -> Seq<char>
    decreases s.len(),
{
    if s.len() == 0 || utf8_width(s[0]) > n {
        seq![]
    } else {
        seq![s[0]] + take_bytes(s.drop_first(), (n - utf8_width(s[0])) as nat)
    }
}

/// The slug as the branch name uses it: cut to its first `SLUG_MAX_BYTES` bytes.
pub open spec fn branch_slug(title: Seq<char>) -> Seq<char> {
    if utf8_len(slug_of(title)) > SLUG_MAX_BYTES {
        take_bytes(slug_of(title), SLUG_MAX_BYTES as nat)
    } else {
        slug_of(title)
    }
}

/// Cutting the slug at `SLUG_MAX_BYTES` bytes falls between two characters
/// (or no cut is needed). A cut inside a character is a string-slicing panic.
pub open spec fn slug_cut_on_char_boundary(title: Seq<char>) -> bool {
    utf8_len(slug_of(title)) <= SLUG_MAX_BYTES
        || utf8_len(take_bytes(slug_of(title), SLUG_MAX_BYTES as nat)) == SLUG_MAX_BYTES
}

/// The name Linear suggests is used when it is there and not empty.
pub open spec fn uses_linear_name(linear_branch_name: Option<Seq<char>>) -> bool {
    linear_branch_name matches Some(n) && n.len() > 0
}

/// The branch name for a ticket: Linear's suggestion when it has one,
/// otherwise `<TICKET-ID>-<slug of title>`, the identifier kept as it is.
pub open spec fn branch_name_for(
    identifier: Seq<char>,
    title: Seq<char>,
    linear_branch_name: Option<Seq<char>>,
) -> Seq<char> {
    if uses_linear_name(linear_branch_name) {
        linear_branch_name->0
    } else {
        identifier + seq!['-'] + branch_slug(title)
    }
}

/// A branch name can be derived for these inputs without cutting a character in two.
pub open spec fn branch_name_resolvable(title: Seq<char>, linear_branch_name: Option<Seq<char>>) -> bool {
    uses_linear_name(linear_branch_name) || slug_cut_on_char_boundary(title)
}

proof fn lemma_nonempty_pieces_step(ps: Seq<Seq<char>>, i: int)
    requires
        0 <= i < ps.len(),
    ensures
        ps.take(i + 1).drop_last() =~= ps.take(i),
        ps.take(i + 1).last() == ps[i],
{
}

/// The slug of a title, uncut.
pub fn slug_chars(title: &str) -> (r: Vec<char>)
    ensures
        r@ == slug_of(title@),
{
    let lower = to_lowercase(title);
    slug_of_lowercase(lower.as_str())
}

/// The slug of a title that is already lower-cased: every run of characters
/// that are not alphanumeric becomes one dash, and no dash is left at either end.
pub fn slug_of_lowercase(lower: &str) -> (r: Vec<char>)
    ensures
        r@ == slug_of_lowered(lower@),
{
    let cs = chars_of(lower);
    let mut mapped: Vec<char> = Vec::new();
    let mut i: usize = 0;
    while i < cs.len()
        invariant
            i <= cs@.len(),
            cs@ == lower@,
            mapped@ == dash_mapped(cs@).take(i as int),
        decreases cs@.len() - i,
    {
        let c = cs[i];
        let m = if is_alphanumeric(c) { c } else { '-' };
        mapped.push(m);
        assert(mapped@ =~= dash_mapped(cs@).take(i + 1));
        i += 1;
    }
    assert(mapped@ =~= dash_mapped(cs@));
    let pieces = split_chars(&mapped, '-');
    let ghost pv = pieces_view(pieces@);
    let mut kept: Vec<Vec<char>> = Vec::new();
    let mut i: usize = 0;
    while i < pieces.len()
        invariant
            i <= pieces@.len(),
            pv == pieces_view(pieces@),
            pieces_view(kept@) == nonempty_pieces(pv.take(i as int)),
        decreases pieces@.len() - i,
    {
        proof { lemma_nonempty_pieces_step(pv, i as int); }
        if pieces[i].len() > 0 {
            kept.push(pieces[i].clone());
            assert(pieces_view(kept@) =~= nonempty_pieces(pv.take(i as int)).push(pv[i as int]));
        }
        i += 1;
    }
    assert(pv.take(pieces@.len() as int) =~= pv);
    let ghost kv = pieces_view(kept@);
    let mut out: Vec<char> = Vec::new();
    let mut i: usize = 0;
    while i < kept.len()
        invariant
            i <= kept@.len(),
            kv == pieces_view(kept@),
            out@ == join_dashes(kv.take(i as int)),
        decreases kept@.len() - i,
    {
        proof { lemma_nonempty_pieces_step(kv, i as int); }
        let ghost before = out@;
        if i > 0 {
            out.push('-');
        }
        let p = &kept[i];
        let mut j: usize = 0;
        while j < p.len()
            invariant
                j <= p@.len(),
                out@ == before + (if i > 0 { seq!['-'] } else { seq![] }) + p@.take(j as int),
            decreases p@.len() - j,
        {
            out.push(p[j]);
            assert(p@.take(j + 1) =~= p@.take(j as int).push(p@[j as int]));
            j += 1;
        }
        assert(p@.take(p@.len() as int) =~= p@);
        assert(kv.take(i + 1).len() == i + 1);
        if i == 0 {
            assert(out@ =~= join_dashes(kv.take(1)));
        } else {
            assert(out@ =~= join_dashes(kv.take(i as int)) + seq!['-'] + kv[i as int]);
        }
        i += 1;
    }
    assert(kv.take(kept@.len() as int) =~= kv);
    out
}

fn char_width(c: char) -> (r: usize)
    ensures
        r == utf8_width(c),
        1 <= r <= 4,
{
    let u = c as u32;
    if u < 0x80 {
        1
    } else if u < 0x800 {
        2
    } else if u < 0x10000 {
        3
    } else {
        4
    }
}

proof fn lemma_utf8_len_step(s: Seq<char>, i: int)
    requires
        0 <= i < s.len(),
    ensures
        s.skip(i).drop_first() =~= s.skip(i + 1),
        utf8_len(s.skip(i)) == utf8_width(s[i]) + utf8_len(s.skip(i + 1)),
        take_bytes(s.skip(i), 0) =~= seq![],
{
    assert(s.skip(i).drop_first() =~= s.skip(i + 1));
    assert(s.skip(i)[0] == s[i]);
}

/// Whether the UTF-8 encoding of `v` takes more than `n` bytes.
pub fn utf8_len_exceeds(v: &Vec<char>, n: usize) -> (r: bool)
    requires
        n <= usize::MAX - 4,
    ensures
        r == (utf8_len(v@) > n),
{
    let mut acc: usize = 0;
    let mut i: usize = 0;
    assert(v@.skip(0) =~= v@);
    while i < v.len()
        invariant
            i <= v@.len(),
            n <= usize::MAX - 4,
            acc <= n,
            acc + utf8_len(v@.skip(i as int)) == utf8_len(v@),
        decreases v@.len() - i,
    {
        proof { lemma_utf8_len_step(v@, i as int); }
        acc += char_width(v[i]);
        if acc > n {
            return true;
        }
        i += 1;
    }
    assert(v@.skip(v@.len() as int) =~= Seq::<char>::empty());
    false
}

/// The longest prefix of `v` that fits in `n` bytes, and whether it fills
/// exactly `n` bytes.
pub fn take_bytes_of(v: &Vec<char>, n: usize) -> (r: (Vec<char>, bool))
    ensures
        r.0@ == take_bytes(v@, n as nat),
        r.1 == (utf8_len(take_bytes(v@, n as nat)) == n),
{
    let mut rem: usize = n;
    let mut i: usize = 0;
    assert(v@.skip(0) =~= v@);
    assert(v@.take(0) + take_bytes(v@.skip(0), n as nat) =~= take_bytes(v@, n as nat));
    while i < v.len() && char_width(v[i]) <= rem
        invariant
            i <= v@.len(),
            rem <= n,
            take_bytes(v@, n as nat) == v@.take(i as int) + take_bytes(v@.skip(i as int), rem as nat),
            utf8_len(take_bytes(v@, n as nat)) == (n - rem) + utf8_len(take_bytes(v@.skip(i as int), rem as nat)),
        decreases v@.len() - i,
    {
        proof { lemma_utf8_len_step(v@, i as int); }
        let w = char_width(v[i]);
        let ghost t = take_bytes(v@.skip(i as int), (rem - w) as nat);
        let ghost tail = take_bytes(v@.skip(i + 1), (rem - w) as nat);
        assert(take_bytes(v@.skip(i as int), rem as nat) == seq![v@[i as int]] + tail);
        assert((seq![v@[i as int]] + tail).drop_first() =~= tail);
        assert((seq![v@[i as int]] + tail)[0] == v@[i as int]);
        assert(v@.take(i + 1) + tail =~= v@.take(i as int) + (seq![v@[i as int]] + tail));
        rem -= w;
        i += 1;
    }
    proof {
        if i < v@.len() {
            assert(v@.skip(i as int)[0] == v@[i as int]);
        }
        assert(take_bytes(v@.skip(i as int), rem as nat) =~= seq![]);
        assert(v@.take(i as int) + seq![] =~= v@.take(i as int));
    }
    let mut out: Vec<char> = Vec::new();
    let mut j: usize = 0;
    while j < i
        invariant
            j <= i <= v@.len(),
            out@ == v@.take(j as int),
        decreases i - j,
    {
        out.push(v[j]);
        assert(v@.take(j + 1) =~= v@.take(j as int).push(v@[j as int]));
        j += 1;
    }
    (out, rem == 0)
}

/// Whether a branch name can be derived without cutting a character of the
/// slug in two; when it can, the name that `resolve_branch_name` gives.
pub fn try_resolve_branch_name(
    identifier: &str,
    title: &str,
    linear_branch_name: Option<&str>,
) -> (r: Option<String>)
    ensures
        ({
            let lb = match linear_branch_name { Some(s) => Some(s@), None => None::<Seq<char>> };
            match r {
                Some(name) => branch_name_resolvable(title@, lb)
                    && name@ == branch_name_for(identifier@, title@, lb),
                None => !branch_name_resolvable(title@, lb),
            }
        }),
{
    if let Some(name) = linear_branch_name {
        if name.unicode_len() > 0 {
            return Some(resolve_branch_name(identifier, title, linear_branch_name));
        }
    }
    let slug = slug_chars(title);
    if utf8_len_exceeds(&slug, SLUG_MAX_BYTES) {
        let (_, exact) = take_bytes_of(&slug, SLUG_MAX_BYTES);
        if !exact {
            return None;
        }
    }
    Some(resolve_branch_name(identifier, title, linear_branch_name))
}

/// The branch name for a ticket: Linear's suggested name when it is there and
/// not empty, otherwise the identifier as it is, a dash, and the title's
/// slug cut to its first `SLUG_MAX_BYTES` bytes (`LOOP-101-fix-auth-bug`).
pub fn resolve_branch_name(identifier: &str, title: &str, linear_branch_name: Option<&str>) -> (r: String)
    requires
        branch_name_resolvable(
            title@,
            match linear_branch_name { Some(s) => Some(s@), None => None::<Seq<char>> },
        ),
    ensures
        r@ == branch_name_for(
            identifier@,
            title@,
            match linear_branch_name { Some(s) => Some(s@), None => None::<Seq<char>> },
        ),
{
    if let Some(name) = linear_branch_name {
        if name.unicode_len() > 0 {
            return owned(name);
        }
    }
    let slug = slug_chars(title);
    let cut = if utf8_len_exceeds(&slug, SLUG_MAX_BYTES) {
        let (c, _) = take_bytes_of(&slug, SLUG_MAX_BYTES);
        c
    } else {
        slug
    };
    let mut r = String::new();
    push_str(&mut r, identifier);
    push_char(&mut r, '-');
    let tail = string_from_chars(&cut);
    push_str(&mut r, tail.as_str());
    r
}

// ---------------------------------------------------------------------------
// Branch existence and worktree placement

/// Where a branch exists.
pub enum BranchStatus {
    DoesNotExist,
    ExistsLocal,
    ExistsRemote,
    ExistsBoth,
}

/// Combines whether the branch resolves locally and whether `origin/<branch>` does.
pub fn branch_status(local: bool, remote: bool) -> (r: BranchStatus)
    ensures
        r == (if local && remote {
            BranchStatus::ExistsBoth
        } else if local {
            BranchStatus::ExistsLocal
        } else if remote {
            BranchStatus::ExistsRemote
        } else {
            BranchStatus::DoesNotExist
        }),
{
    if local && remote {
        BranchStatus::ExistsBoth
    } else if local {
        BranchStatus::ExistsLocal
    } else if remote {
        BranchStatus::ExistsRemote
    } else {
        BranchStatus::DoesNotExist
    }
}

/// What to do for a ticket's worktree.
pub enum WorktreeAction {
    /// Create the branch from this base ref in a new worktree.
    CreateFrom(String),
    /// Check the existing branch out (or reuse its worktree).
    UseExisting,
}

/// A new branch starts from the remote's primary branch, never the local one.
pub open spec fn base_ref_for(primary_branch: Seq<char>) -> Seq<char> {
    "origin/"@ + primary_branch
}

/// The remote-tracking ref of a branch: `origin/<branch>`.
pub fn origin_ref(branch: &str) -> (r: String)
    ensures
        r@ == base_ref_for(branch@),
{
    let mut b = String::new();
    push_str(&mut b, "origin/");
    push_str(&mut b, branch);
    b
}

/// A branch that exists nowhere is created from `origin/<primary>`; a branch
/// that exists anywhere is reused.
pub fn plan_worktree(status: &BranchStatus, primary_branch: &str) -> (r: WorktreeAction)
    ensures
        match status {
            BranchStatus::DoesNotExist => r matches WorktreeAction::CreateFrom(b) && b@ == base_ref_for(primary_branch@),
            _ => r matches WorktreeAction::UseExisting,
        },
{
    match status {
        BranchStatus::DoesNotExist => WorktreeAction::CreateFrom(origin_ref(primary_branch)),
        _ => WorktreeAction::UseExisting,
    }
}

/// `base` joined with `p` as `Path::join` does on Unix: an absolute `p`
/// replaces `base`; otherwise a `/` is put between them unless `base` is
/// empty or already ends with one.
pub open spec fn path_join(base: Seq<char>, p: Seq<char>) -> Seq<char> {
    if p.len() > 0 && p[0] == '/' {
        p
    } else if base.len() == 0 {
        p
    } else if base.last() == '/' {
        base + p
    } else {
        base + seq!['/'] + p
    }
}

/// Joins two path pieces (see `path_join`).
pub fn join_path(base: &str, p: &str) -> (r: String)
    ensures
        r@ == path_join(base@, p@),
{
    let pn = p.unicode_len();
    let bn = base.unicode_len();
    if pn > 0 && p.get_char(0) == '/' {
        return owned(p);
    }
    if bn == 0 {
        return owned(p);
    }
    let mut r = owned(base);
    if base.get_char(bn - 1) != '/' {
        push_char(&mut r, '/');
    }
    push_str(&mut r, p);
    r
}

/// The worktree of a branch: `<worktrees_dir>/<branch>`.
pub fn worktree_path(worktrees_dir: &str, branch_name: &str) -> (r: String)
    ensures
        r@ == path_join(worktrees_dir@, branch_name@),
{
    join_path(worktrees_dir, branch_name)
}

/// The shared local worktree in which services run: `<worktrees_dir>/_local`.
pub fn local_worktree_path(repo: &RepoRow) -> (r: String)
    ensures
        r@ == path_join(repo.worktrees_dir@, "_local"@),
{
    join_path(repo.worktrees_dir.as_str(), "_local")
}

/// The repository's shared-services setup file: `<repo>/.herd.json`.
pub fn herd_config_path(repo: &RepoRow) -> (r: String)
    ensures
        r@ == path_join(repo.path@, ".herd.json"@),
{
    join_path(repo.path.as_str(), ".herd.json")
}

// ---------------------------------------------------------------------------
// Files copied into a new worktree

/// The copy patterns used when none are configured.
pub open spec fn default_copy_patterns() -> Seq<char> {
    ".env*"@
}

/// The glob patterns of files copied from the local worktree into a new one:
/// the comma-separated setting (`.env*` when unset), each trimmed.
pub open spec fn copy_patterns_of(setting: Option<Seq<char>>) -> Seq<Seq<char>> {
    let text = match setting {
        Some(s) => s,
        None => default_copy_patterns(),
    };
    split_at_char(text, ',').map_values(|p: Seq<char>| trim_ws(p))
}

/// Reads the copy-patterns setting (see `copy_patterns_of`).
pub fn copy_patterns(setting: Option<&str>) -> (r: Vec<String>)
    ensures
        strings_view(r@) == copy_patterns_of(match setting { Some(s) => Some(s@), None => None::<Seq<char>> }),
{
    let text = match setting {
        Some(s) => chars_of(s),
        None => chars_of(".env*"),
    };
    let pieces = split_chars(&text, ',');
    let ghost pv = pieces_view(pieces@);
    let mut out: Vec<String> = Vec::new();
    let mut i: usize = 0;
    while i < pieces.len()
        invariant
            i <= pieces@.len(),
            pv == pieces_view(pieces@),
            strings_view(out@) == pv.take(i as int).map_values(|p: Seq<char>| trim_ws(p)),
        decreases pieces@.len() - i,
    {
        let t = trim_chars(&pieces[i]);
        let s = string_from_chars(&t);
        let ghost before = strings_view(out@);
        out.push(s);
        assert(pv[i as int] == pieces@[i as int]@);
        assert(strings_view(out@) =~= before.push(trim_ws(pv[i as int])));
        assert(pv.take(i + 1).map_values(|p: Seq<char>| trim_ws(p)) =~= pv.take(i as int).map_values(|p: Seq<char>| trim_ws(p)).push(trim_ws(pv[i as int])));
        i += 1;
    }
    assert(pv.take(pieces@.len() as int) =~= pv);
    out
}

/// A pattern joined onto the directory it is matched in: `<dir>/<pattern>`.
pub fn glob_pattern_in(dir: &str, pattern: &str) -> (r: String)
    ensures
        r@ == dir@ + "/"@ + pattern@,
{
    let mut r = owned(dir);
    push_str(&mut r, "/");
    push_str(&mut r, pattern);
    r
}

// ---------------------------------------------------------------------------
// Detecting a repository

/// `s` with every leading `origin/` removed, as `trim_start_matches` does.
pub open spec fn strip_origin_prefixes(s: Seq<char>) -> Seq<char>
    decreases s.len(),
{
    if s.len() >= 7 && s.take(7) == "origin/"@ {
        strip_origin_prefixes(s.skip(7))
    } else {
        s
    }
}

/// The primary branch of a clone, from the output of
/// `git symbolic-ref refs/remotes/origin/HEAD --short` when that succeeded:
/// trimmed, without the `origin/` prefix. `main` when there is no output.
pub open spec fn primary_branch_of(output: Option<Seq<char>>) -> Seq<char> {
    match output {
        Some(o) => strip_origin_prefixes(trim_ws(o)),
        None => "main"@,
    }
}

/// Reads the primary branch (see `primary_branch_of`).
pub fn primary_branch_from(output: Option<&str>) -> (r: String)
    ensures
        r@ == primary_branch_of(match output { Some(s) => Some(s@), None => None::<Seq<char>> }),
{
    match output {
        None => owned("main"),
        Some(o) => {
            let cs = chars_of(o);
            let t = trim_chars(&cs);
            let prefix = chars_of("origin/");
            proof { reveal_strlit("origin/"); }
            let mut start: usize = 0;
            assert(t@.skip(0) =~= t@);
            loop
                invariant
                    output == Some(o),
                    start <= t@.len(),
                    t@ == trim_ws(o@),
                    prefix@ == "origin/"@,
                    "origin/"@.len() == 7,
                    strip_origin_prefixes(t@) == strip_origin_prefixes(t@.skip(start as int)),
                decreases t@.len() - start,
            {
                let ghost rest = t@.skip(start as int);
                let mut matches = t.len() - start >= 7;
                let mut j: usize = 0;
                while matches && j < 7
                    invariant
                        start <= t@.len(),
                        t@ == trim_ws(o@),
                        strip_origin_prefixes(t@) == strip_origin_prefixes(t@.skip(start as int)),
                        prefix@ == "origin/"@,
                        "origin/"@.len() == 7,
                        prefix@.len() == 7,
                        rest == t@.skip(start as int),
                        j <= 7,
                        matches ==> start + 7 <= t.len(),
                        matches ==> rest.len() >= 7 && rest.take(j as int) == prefix@.take(j as int),
                        !matches ==> !(rest.len() >= 7 && rest.take(7) == "origin/"@),
                    decreases 7 - j + (if matches { 1int } else { 0int }),
                {
                    if t[start + j] != prefix[j] {
                        assert(rest.take(7)[j as int] != prefix@[j as int]);
                        matches = false;
                    } else {
                        assert(rest.take(j + 1) =~= rest.take(j as int).push(rest[j as int]));
                        assert(prefix@.take(j + 1) =~= prefix@.take(j as int).push(prefix@[j as int]));
                        j += 1;
                    }
                }
                if matches {
                    assert(prefix@.take(7) =~= prefix@);
                    assert(rest.skip(7) =~= t@.skip(start + 7));
                    start += 7;
                } else {
                    let r = string_from_range(&t, start, t.len());
                    assert(t@.subrange(start as int, t@.len() as int) =~= rest);
                    return r;
                }
            }
        },
    }
}

// ---------------------------------------------------------------------------
// Laws about branch names

/// No dash at either end, and never two dashes in a row.
pub open spec fn well_dashed(s: Seq<char>) -> bool {
    &&& s.len() > 0 ==> s[0] != '-' && s.last() != '-'
    &&& forall|i: int| 0 <= i < s.len() - 1 ==> !(#[trigger] s[i] == '-' && s[i + 1] == '-')
}

/// Every piece is non-empty and holds no dash.
pub open spec fn dash_free_pieces(ps: Seq<Seq<char>>) -> bool {
    forall|k: int| 0 <= k < ps.len() ==> (#[trigger] ps[k]).len() > 0 && !ps[k].contains('-')
}

proof fn lemma_split_pieces_free(s: Seq<char>, sep: char)
    ensures
        forall|k: int| 0 <= k < split_at_char(s, sep).len() ==> !(#[trigger] split_at_char(s, sep)[k]).contains(sep),
    decreases s.len(),
{
    lemma_split_nonempty(s, sep);
    if s.len() > 0 {
        lemma_split_pieces_free(s.drop_last(), sep);
        lemma_split_nonempty(s.drop_last(), sep);
        let p = split_at_char(s.drop_last(), sep);
        if s.last() != sep {
            let q = p.update(p.len() - 1, p.last().push(s.last()));
            assert forall|k: int| 0 <= k < q.len() implies !(#[trigger] q[k]).contains(sep) by {
                if k == p.len() - 1 {
                    if q[k].contains(sep) {
                        let j = choose|j: int| 0 <= j < q[k].len() && q[k][j] == sep;
                        assert(p.last().contains(p.last().push(s.last())[j]));
                    }
                }
            }
        } else {
            let q = p.push(seq![]);
            assert forall|k: int| 0 <= k < q.len() implies !(#[trigger] q[k]).contains(sep) by {
                if k < p.len() {
                    assert(q[k] == p[k]);
                }
            }
        }
    }
}

proof fn lemma_nonempty_pieces_free(ps: Seq<Seq<char>>)
    requires
        forall|k: int| 0 <= k < ps.len() ==> !(#[trigger] ps[k]).contains('-'),
    ensures
        dash_free_pieces(nonempty_pieces(ps)),
    decreases ps.len(),
{
    if ps.len() > 0 {
        let d = ps.drop_last();
        assert forall|k: int| 0 <= k < d.len() implies !(#[trigger] d[k]).contains('-') by {
            assert(d[k] == ps[k]);
        }
        lemma_nonempty_pieces_free(d);
        let r = nonempty_pieces(d);
        if ps.last().len() > 0 {
            let q = r.push(ps.last());
            assert forall|k: int| 0 <= k < q.len() implies (#[trigger] q[k]).len() > 0 && !q[k].contains('-') by {
                if k < r.len() {
                    assert(q[k] == r[k]);
                }
            }
        }
    }
}

proof fn lemma_join_well_dashed(ps: Seq<Seq<char>>)
    requires
        dash_free_pieces(ps),
    ensures
        well_dashed(join_dashes(ps)),
        ps.len() > 0 ==> join_dashes(ps).len() > 0,
    decreases ps.len(),
{
    if ps.len() == 1 {
        let p = ps[0];
        assert(dash_free_pieces(ps));
        assert(p.len() > 0 && !p.contains('-'));
        assert(p[0] != '-') by { if p[0] == '-' { assert(p.contains(p[0])); } }
        assert(p.last() != '-') by { if p.last() == '-' { assert(p.contains(p[p.len() - 1])); } }
        assert forall|i: int| 0 <= i < p.len() - 1 implies !(#[trigger] p[i] == '-' && p[i + 1] == '-') by {
            if p[i] == '-' { assert(p.contains(p[i])); }
        }
    } else if ps.len() > 1 {
        let d = ps.drop_last();
        assert forall|k: int| 0 <= k < d.len() implies (#[trigger] d[k]).len() > 0 && !d[k].contains('-') by {
            assert(d[k] == ps[k]);
        }
        lemma_join_well_dashed(d);
        let a = join_dashes(d);
        let b = ps.last();
        assert(b == ps[ps.len() - 1]);
        assert(b.len() > 0 && !b.contains('-'));
        let j = a + seq!['-'] + b;
        assert(j == join_dashes(ps));
        assert forall|i: int| 0 <= i < b.len() implies #[trigger] b[i] != '-' by {
            if b[i] == '-' { assert(b.contains(b[i])); }
        }
        assert(j[0] == a[0]);
        assert(j.last() == b.last());
        assert forall|i: int| 0 <= i < j.len() - 1 implies !(#[trigger] j[i] == '-' && j[i + 1] == '-') by {
            if i < a.len() - 1 {
                assert(j[i] == a[i] && j[i + 1] == a[i + 1]);
            } else if i == a.len() - 1 {
                assert(j[i] == a.last());
            } else if i == a.len() {
                assert(j[i + 1] == b[0]);
            } else {
                assert(j[i] == b[i - a.len() - 1]);
            }
        }
    }
}

/// `take_bytes` never exceeds its budget.
pub proof fn lemma_take_bytes_bounded(s: Seq<char>, n: nat)
    ensures
        utf8_len(take_bytes(s, n)) <= n,
        has_prefix(s, take_bytes(s, n)),
    decreases s.len(),
{
    if !(s.len() == 0 || utf8_width(s[0]) > n) {
        let rest = take_bytes(s.drop_first(), (n - utf8_width(s[0])) as nat);
        lemma_take_bytes_bounded(s.drop_first(), (n - utf8_width(s[0])) as nat);
        let t = seq![s[0]] + rest;
        assert(t[0] == s[0]);
        assert(t.drop_first() =~= rest);
        assert(s.take(t.len() as int) =~= t) by {
            assert forall|i: int| 0 <= i < t.len() implies s[i] == t[i] by {
                if i > 0 {
                    assert(t[i] == rest[i - 1]);
                    assert(s.drop_first().take(rest.len() as int)[i - 1] == rest[i - 1]);
                }
            }
        }
    } else {
        assert(s.take(0) =~= seq![]);
    }
}

/// Law: a derived branch name is the identifier as it is, a dash, and a
/// slug of at most `SLUG_MAX_BYTES` bytes that starts the title's slug; the
/// uncut slug never starts or ends with a dash nor holds two in a row. A
/// non-empty name from Linear is used as it is.
pub proof fn law_branch_name_shape(identifier: Seq<char>, title: Seq<char>, linear_branch_name: Option<Seq<char>>)
    ensures
        uses_linear_name(linear_branch_name) ==> branch_name_for(identifier, title, linear_branch_name)
            == linear_branch_name->0,
        !uses_linear_name(linear_branch_name) ==> branch_name_for(identifier, title, linear_branch_name)
            == identifier + seq!['-'] + branch_slug(title),
        utf8_len(branch_slug(title)) <= SLUG_MAX_BYTES,
        has_prefix(slug_of(title), branch_slug(title)),
        well_dashed(slug_of(title)),
{
    lemma_take_bytes_bounded(slug_of(title), SLUG_MAX_BYTES as nat);
    if utf8_len(slug_of(title)) <= SLUG_MAX_BYTES {
        assert(slug_of(title).take(slug_of(title).len() as int) =~= slug_of(title));
    }
    let m = dash_mapped(str_lowercase(title));
    lemma_split_pieces_free(m, '-');
    lemma_nonempty_pieces_free(split_at_char(m, '-'));
    lemma_join_well_dashed(nonempty_pieces(split_at_char(m, '-')));
}

/// The characters of `s` other than dashes, in order.
pub open spec fn without_dashes(s: Seq<char>) -> Seq<char>
    decreases s.len(),
{
    if s.len() == 0 {
        seq![]
    } else if s.last() == '-' {
        without_dashes(s.drop_last())
    } else {
        without_dashes(s.drop_last()).push(s.last())
    }
}

/// The alphanumeric characters of `s` (dashes aside), in order.
pub open spec fn alphanumeric_chars(s: Seq<char>) -> Seq<char>
    decreases s.len(),
{
    if s.len() == 0 {
        seq![]
    } else if char_alphanumeric(s.last()) && s.last() != '-' {
        alphanumeric_chars(s.drop_last()).push(s.last())
    } else {
        alphanumeric_chars(s.drop_last())
    }
}

/// The pieces written one after another.
pub open spec fn concat_pieces(ps: Seq<Seq<char>>) -> Seq<char>
    decreases ps.len(),
{
    if ps.len() == 0 {
        seq![]
    } else {
        concat_pieces(ps.drop_last()) + ps.last()
    }
}

proof fn lemma_without_dashes_append(a: Seq<char>, b: Seq<char>)
    ensures
        without_dashes(a + b) == without_dashes(a) + without_dashes(b),
    decreases b.len(),
{
    if b.len() == 0 {
        assert(a + b =~= a);
        assert(without_dashes(a) + without_dashes(b) =~= without_dashes(a));
    } else {
        assert((a + b).drop_last() =~= a + b.drop_last());
        assert((a + b).last() == b.last());
        lemma_without_dashes_append(a, b.drop_last());
        if b.last() == '-' {
        } else {
            assert(without_dashes(a) + without_dashes(b.drop_last()).push(b.last())
                =~= (without_dashes(a) + without_dashes(b.drop_last())).push(b.last()));
        }
    }
}

proof fn lemma_without_dashes_free(s: Seq<char>)
    requires
        !s.contains('-'),
    ensures
        without_dashes(s) == s,
    decreases s.len(),
{
    if s.len() > 0 {
        assert(s.last() == s[s.len() - 1]);
        assert(!s.drop_last().contains('-')) by {
            if s.drop_last().contains('-') {
                let k = choose|k: int| 0 <= k < s.drop_last().len() && s.drop_last()[k] == '-';
                assert(s[k] == '-');
            }
        }
        lemma_without_dashes_free(s.drop_last());
        assert(s.drop_last().push(s.last()) =~= s);
    }
}

proof fn lemma_join_without_dashes(ps: Seq<Seq<char>>)
    requires
        forall|k: int| 0 <= k < ps.len() ==> !(#[trigger] ps[k]).contains('-'),
    ensures
        without_dashes(join_dashes(ps)) == concat_pieces(ps),
    decreases ps.len(),
{
    if ps.len() == 0 {
    } else if ps.len() == 1 {
        assert(ps.drop_last().len() == 0);
        lemma_without_dashes_free(ps[0]);
        assert(concat_pieces(ps.drop_last()) =~= Seq::<char>::empty());
        assert(ps.last() == ps[0]);
        assert(concat_pieces(ps) =~= ps[0]);
    } else {
        let d = ps.drop_last();
        assert forall|k: int| 0 <= k < d.len() implies !(#[trigger] d[k]).contains('-') by {
            assert(d[k] == ps[k]);
        }
        lemma_join_without_dashes(d);
        assert(!ps.last().contains('-')) by { assert(ps.last() == ps[ps.len() - 1]); }
        lemma_without_dashes_free(ps.last());
        lemma_without_dashes_append(join_dashes(d) + seq!['-'], ps.last());
        lemma_without_dashes_append(join_dashes(d), seq!['-']);
        assert(seq!['-'].drop_last() =~= Seq::<char>::empty());
        assert(seq!['-'].last() == '-');
        assert(without_dashes(seq!['-'].drop_last()) =~= Seq::<char>::empty());
        assert(without_dashes(seq!['-']) =~= Seq::<char>::empty());
        assert(without_dashes(join_dashes(d)) + without_dashes(seq!['-']) =~= without_dashes(join_dashes(d)));
    }
}

proof fn lemma_concat_nonempty(ps: Seq<Seq<char>>)
    ensures
        concat_pieces(nonempty_pieces(ps)) == concat_pieces(ps),
    decreases ps.len(),
{
    if ps.len() > 0 {
        lemma_concat_nonempty(ps.drop_last());
        let r = nonempty_pieces(ps.drop_last());
        if ps.last().len() > 0 {
            assert(r.push(ps.last()).drop_last() =~= r);
        } else {
            assert(concat_pieces(ps.drop_last()) + ps.last() =~= concat_pieces(ps.drop_last()));
        }
    }
}

proof fn lemma_concat_split(s: Seq<char>)
    ensures
        concat_pieces(split_at_char(s, '-')) == without_dashes(s),
    decreases s.len(),
{
    if s.len() == 0 {
        assert(split_at_char(s, '-') =~= seq![seq![]]);
        assert(seq![Seq::<char>::empty()].drop_last() =~= Seq::<Seq<char>>::empty());
        assert(concat_pieces(Seq::<Seq<char>>::empty()) =~= Seq::<char>::empty());
        assert(seq![Seq::<char>::empty()].last() =~= Seq::<char>::empty());
        assert(concat_pieces(seq![Seq::<char>::empty()]) =~= Seq::<char>::empty());
    } else {
        lemma_concat_split(s.drop_last());
        lemma_split_nonempty(s.drop_last(), '-');
        let p = split_at_char(s.drop_last(), '-');
        if s.last() == '-' {
            assert(p.push(seq![]).drop_last() =~= p);
            assert(concat_pieces(p) + Seq::<char>::empty() =~= concat_pieces(p));
        } else {
            let q = p.update(p.len() - 1, p.last().push(s.last()));
            assert(q.drop_last() =~= p.drop_last());
            assert(q.last() == p.last().push(s.last()));
            assert(concat_pieces(q) =~= concat_pieces(p).push(s.last()));
        }
    }
}

proof fn lemma_dash_mapped_without(s: Seq<char>)
    ensures
        without_dashes(dash_mapped(s)) == alphanumeric_chars(s),
    decreases s.len(),
{
    if s.len() > 0 {
        assert(dash_mapped(s).drop_last() =~= dash_mapped(s.drop_last()));
        assert(dash_mapped(s).last() == (if char_alphanumeric(s.last()) { s.last() } else { '-' }));
        lemma_dash_mapped_without(s.drop_last());
    }
}

/// Law: the slug keeps every alphanumeric character of the lower-cased
/// title, digits and letters alike, in order, and nothing else but the
/// dashes between runs of them.
pub proof fn law_slug_keeps_alphanumerics(title: Seq<char>)
    ensures
        without_dashes(slug_of(title)) == alphanumeric_chars(str_lowercase(title)),
{
    let m = dash_mapped(str_lowercase(title));
    let ps = split_at_char(m, '-');
    lemma_split_pieces_free(m, '-');
    lemma_nonempty_pieces_free(ps);
    let ne = nonempty_pieces(ps);
    assert forall|k: int| 0 <= k < ne.len() implies !(#[trigger] ne[k]).contains('-') by {
        assert(dash_free_pieces(ne));
    }
    lemma_join_without_dashes(ne);
    lemma_concat_nonempty(ps);
    lemma_concat_split(m);
    lemma_dash_mapped_without(str_lowercase(title));
}

/// Law: a title whose lower-case form is made of alphanumeric characters only
/// (and no dash) is its own slug, digits included.
pub proof fn law_alphanumeric_title_is_its_own_slug(title: Seq<char>)
    requires
        str_lowercase(title).len() > 0,
        forall|i: int| 0 <= i < str_lowercase(title).len() ==> char_alphanumeric(#[trigger] str_lowercase(title)[i])
            && str_lowercase(title)[i] != '-',
    ensures
        slug_of(title) == str_lowercase(title),
{
    let l = str_lowercase(title);
    assert(dash_mapped(l) =~= l);
    assert(!l.contains('-'));
    lemma_split_no_sep(l);
    let one = seq![l];
    assert(one.drop_last() =~= Seq::<Seq<char>>::empty());
    assert(nonempty_pieces(one.drop_last()) =~= Seq::<Seq<char>>::empty());
    assert(one.last() == l);
    assert(nonempty_pieces(one) =~= one);
    assert(join_dashes(one) == l);
}

proof fn lemma_split_no_sep(s: Seq<char>)
    requires
        !s.contains('-'),
    ensures
        split_at_char(s, '-') == seq![s],
    decreases s.len(),
{
    if s.len() == 0 {
        assert(s =~= Seq::<char>::empty());
        assert(split_at_char(s, '-') =~= seq![s]);
    } else {
        assert(!s.drop_last().contains('-')) by {
            if s.drop_last().contains('-') {
                let k = choose|k: int| 0 <= k < s.drop_last().len() && s.drop_last()[k] == '-';
                assert(s[k] == '-');
            }
        }
        lemma_split_no_sep(s.drop_last());
        assert(s.last() == s[s.len() - 1]);
        assert(s.last() != '-');
        assert(s.drop_last().push(s.last()) =~= s);
        assert(seq![s.drop_last()].update(0, s.drop_last().push(s.last())) =~= seq![s]);
    }
}

// ---------------------------------------------------------------------------
// The shared local worktree

/// What to do about `node_modules` in the local worktree.
pub enum NodeModulesAction {
    /// Remove an empty `node_modules` that would block a pnpm install.
    RemoveEmptyLocal,
    /// Link the main clone's `node_modules` into the local worktree.
    LinkMainIntoLocal,
    /// Leave things as they are.
    Nothing,
}

/// pnpm workspaces install per worktree (an empty leftover directory is
/// removed first); npm and yarn checkouts borrow the main clone's
/// `node_modules` through a link when the local worktree has none.
pub fn local_node_modules_action(
    is_pnpm_workspace: bool,
    local_is_dir: bool,
    local_is_empty: bool,
    local_exists: bool,
    main_is_dir: bool,
) -> (r: NodeModulesAction)
    ensures
        r == (if is_pnpm_workspace {
            if local_is_dir && local_is_empty { NodeModulesAction::RemoveEmptyLocal } else { NodeModulesAction::Nothing }
        } else if main_is_dir && !local_exists {
            NodeModulesAction::LinkMainIntoLocal
        } else {
            NodeModulesAction::Nothing
        }),
{
    if is_pnpm_workspace {
        if local_is_dir && local_is_empty {
            NodeModulesAction::RemoveEmptyLocal
        } else {
            NodeModulesAction::Nothing
        }
    } else if main_is_dir && !local_exists {
        NodeModulesAction::LinkMainIntoLocal
    } else {
        NodeModulesAction::Nothing
    }
}

/// The branch the local worktree is created on: the one asked for, or the primary branch.
pub fn local_checkout_branch(desired: Option<&str>, primary_branch: &str) -> (r: String)
    ensures
        r@ == (match desired { Some(d) => d@, None => primary_branch@ }),
{
    match desired {
        Some(d) => owned(d),
        None => owned(primary_branch),
    }
}

// ---------------------------------------------------------------------------
// Where the app keeps its own files

/// The app's data folder: `<data dir>/Loop`, with the working directory
/// standing in when the platform reports no data dir.
pub open spec fn app_data_dir(data_dir: Option<Seq<char>>) -> Seq<char> {
    path_join(
        match data_dir {
            Some(d) => d,
            None => "."@,
        },
        "Loop"@,
    )
}

fn app_data_dir_of(data_dir: Option<&str>) -> (r: String)
    ensures
        r@ == app_data_dir(match data_dir { Some(d) => Some(d@), None => None::<Seq<char>> }),
{
    match data_dir {
        Some(d) => join_path(d, "Loop"),
        None => join_path(".", "Loop"),
    }
}

/// The database file: `<data dir>/Loop/loop.db`.
pub fn herd_db_path(data_dir: Option<&str>) -> (r: String)
    ensures
        r@ == path_join(app_data_dir(match data_dir { Some(d) => Some(d@), None => None::<Seq<char>> }), "loop.db"@),
{
    let base = app_data_dir_of(data_dir);
    join_path(base.as_str(), "loop.db")
}

/// The log of a session's output: `<data dir>/Loop/scrollbacks/<session>.log`.
pub fn scrollback_path(data_dir: Option<&str>, session_id: &str) -> (r: String)
    ensures
        r@ == path_join(
            path_join(app_data_dir(match data_dir { Some(d) => Some(d@), None => None::<Seq<char>> }), "scrollbacks"@),
            session_id@ + ".log"@,
        ),
{
    let base = app_data_dir_of(data_dir);
    let dir = join_path(base.as_str(), "scrollbacks");
    let name = crate::pty::scrollback_file_name(session_id);
    join_path(dir.as_str(), name.as_str())
}

/// Where a repository's worktrees go: `<parent>/<name>-worktrees`.
pub fn worktrees_dir_for(parent: &str, repo_name: &str) -> (r: String)
    ensures
        r@ == path_join(parent@, repo_name@ + "-worktrees"@),
{
    let mut leaf = owned(repo_name);
    push_str(&mut leaf, "-worktrees");
    join_path(parent, leaf.as_str())
}

} // verus!
