use vstd::prelude::*;
use crate::text::{chars_of, decimal_digits, push_char, push_decimal, strings_view};
use vstd::string::StringExecFns;
use super::manifest::{RelativePath, TransferError};
use crate::platform::firewall::TargetPlatform;

verus! {

/// Whether destination names are read with Windows path syntax on `platform`.
pub open spec fn windows_paths(platform: TargetPlatform) -> bool {
    platform == TargetPlatform::Windows
}

/// Whether `c` separates path components: `/` always, and `\` as well with
/// Windows path syntax.
pub open spec fn is_separator(c: char, windows: bool) -> bool {
    c == '/' || (windows && c == '\\')
}

/// The pieces of a path between separators (empty pieces included).
pub open spec fn split_pieces(s: Seq<char>, windows: bool) -> Seq<Seq<char>>
    decreases s.len(),
{
    if s.len() == 0 {
        seq![Seq::empty()]
    } else {
        let pre = split_pieces(s.drop_last(), windows);
        if is_separator(s.last(), windows) {
            pre.push(Seq::empty())
        } else {
            pre.update(pre.len() - 1, pre.last().push(s.last()))
        }
    }
}

pub open spec fn is_cur_dir(p: Seq<char>) -> bool {
    p == seq!['.']
}

pub open spec fn is_parent_dir(p: Seq<char>) -> bool {
    p == seq!['.', '.']
}

/// A piece that names a file or directory (not empty, not ".").
pub open spec fn is_normal_piece(p: Seq<char>) -> bool {
    p.len() > 0 && !is_cur_dir(p)
}

pub open spec fn is_ascii_letter(c: char) -> bool {
    ('a' <= c && c <= 'z') || ('A' <= c && c <= 'Z')
}

/// A start that makes a name rooted rather than relative: a leading separator (a
/// root, or with Windows syntax also a UNC or device prefix such as `\\server`),
/// or, with Windows syntax, a drive prefix (an ASCII letter and `:`).
pub open spec fn has_rooted_start(name: Seq<char>, windows: bool) -> bool {
    ||| (name.len() > 0 && is_separator(name[0], windows))
    ||| (windows && name.len() >= 2 && is_ascii_letter(name[0]) && name[1] == ':')
}

/// The components of a relative destination name, read with the path syntax of
/// `platform` (`/` separates components everywhere, `\` too on Windows): refused
/// (`None`) when the name is rooted (see `has_rooted_start`), starts with ".",
/// holds "..", or names nothing; otherwise its named pieces, in order (empty
/// pieces and inner "." pieces are dropped, as path parsing drops them).
pub open spec fn destination_components(name: Seq<char>, platform: TargetPlatform) -> Option<Seq<Seq<char>>> {
    let w = windows_paths(platform);
    let pieces = split_pieces(name, w);
    let normal = pieces.filter(|p: Seq<char>| is_normal_piece(p));
    if has_rooted_start(name, w) || is_cur_dir(pieces[0])
        || (exists|i: int| 0 <= i < pieces.len() && is_parent_dir(#[trigger] pieces[i])) || normal.len() == 0 {
        None
    } else {
        Some(normal)
    }
}

proof fn lemma_split_nonempty(s: Seq<char>, windows: bool)
    ensures
        split_pieces(s, windows).len() >= 1,
    decreases s.len(),
{
    if s.len() > 0 {
        lemma_split_nonempty(s.drop_last(), windows);
    }
}

/// A plain name under a path syntax: not empty, not "." or "..", and holding no
/// separator.
pub open spec fn is_plain_name(p: Seq<char>, windows: bool) -> bool {
    &&& p.len() > 0
    &&& !is_cur_dir(p)
    &&& !is_parent_dir(p)
    &&& forall|j: int| 0 <= j < p.len() ==> !is_separator(#[trigger] p[j], windows)
}

/// Appending text without separators extends the last piece.
pub(crate) proof fn lemma_split_append_plain(s: Seq<char>, t: Seq<char>, windows: bool)
    requires
        forall|j: int| 0 <= j < t.len() ==> !is_separator(#[trigger] t[j], windows),
    ensures
        split_pieces(s + t, windows) == split_pieces(s, windows).update(
            split_pieces(s, windows).len() - 1,
            split_pieces(s, windows).last() + t,
        ),
    decreases t.len(),
{
    lemma_split_nonempty(s, windows);
    let pre = split_pieces(s, windows);
    if t.len() == 0 {
        assert(s + t =~= s);
        assert(pre.last() + t =~= pre.last());
        assert(pre.update(pre.len() - 1, pre.last() + t) =~= pre);
    } else {
        let t0 = t.drop_last();
        assert forall|j: int| 0 <= j < t0.len() implies !is_separator(#[trigger] t0[j], windows) by {
            assert(t0[j] == t[j]);
        }
        lemma_split_append_plain(s, t0, windows);
        assert((s + t).drop_last() =~= s + t0);
        assert((s + t).last() == t.last());
        assert(!is_separator(t[t.len() - 1], windows));
        assert((pre.last() + t0).push(t.last()) =~= pre.last() + t);
        assert(split_pieces(s + t, windows) =~= pre.update(pre.len() - 1, pre.last() + t));
    }
}

/// Appending a separator starts a new, empty piece.
pub(crate) proof fn lemma_split_push_separator(s: Seq<char>, c: char, windows: bool)
    requires
        is_separator(c, windows),
    ensures
        split_pieces(s.push(c), windows) == split_pieces(s, windows).push(Seq::empty()),
{
    assert(s.push(c).drop_last() =~= s);
}

fn chars_to_string(v: &Vec<char>) -> (s: String)
    ensures
        s@ == v@,
{
    let mut s = String::new();
    let mut i: usize = 0;
    while i < v.len()
        invariant
            i <= v@.len(),
            s@ == v@.take(i as int),
        decreases v@.len() - i,
    {
        push_char(&mut s, v[i]);
        assert(v@.take(i as int + 1) =~= v@.take(i as int).push(v@[i as int]));
        i = i + 1;
    }
    assert(v@.take(v@.len() as int) =~= v@);
    s
}

fn is_dot(v: &Vec<char>) -> (b: bool)
    ensures
        b == is_cur_dir(v@),
{
    let b = v.len() == 1 && v[0] == '.';
    if b {
        assert(v@ =~= seq!['.']);
    }
    b
}

fn is_dot_dot(v: &Vec<char>) -> (b: bool)
    ensures
        b == is_parent_dir(v@),
{
    let b = v.len() == 2 && v[0] == '.' && v[1] == '.';
    if b {
        assert(v@ =~= seq!['.', '.']);
    }
    b
}

fn rooted_start(chars: &Vec<char>, windows: bool) -> (b: bool)
    ensures
        b == has_rooted_start(chars@, windows),
{
    if chars.len() > 0 && (chars[0] == '/' || (windows && chars[0] == '\\')) {
        return true;
    }
    if windows && chars.len() >= 2 && chars[1] == ':' {
        let c = chars[0];
        return ('a' <= c && c <= 'z') || ('A' <= c && c <= 'Z');
    }
    false
}

/// Reads a relative destination name sent by a peer with the path syntax of
/// `platform`, refusing rooted names (a leading separator, or on Windows a drive
/// prefix), names that start with "." and names that hold "..".
pub fn safe_relative_destination_path(relative_name: &str, platform: TargetPlatform) -> (r: Result<RelativePath, TransferError>)
    ensures
        match destination_components(relative_name@, platform) {
            Some(c) => r matches Ok(p) && p@ == c,
            None => r matches Err(TransferError::UnsafeDestination(s)) && s@ == relative_name@,
        },
{
    let windows = platform == TargetPlatform::Windows;
    let chars = chars_of(relative_name);
    let ghost name = chars@;
    let ghost normal_of = |p: Seq<char>| is_normal_piece(p);
    proof {
        lemma_split_nonempty(name, windows);
    }
    let mut components: Vec<String> = Vec::new();
    let mut current: Vec<char> = Vec::new();
    let mut done: usize = 0;
    let mut bad = rooted_start(&chars, windows);
    let mut i: usize = 0;
    // `done` counts the pieces already finished before `current`.
    while i < chars.len()
        invariant
            i <= name.len(),
            done <= i,
            chars@ == name,
            normal_of == (|p: Seq<char>| is_normal_piece(p)),
            split_pieces(name.take(i as int), windows).len() == done + 1,
            split_pieces(name.take(i as int), windows).last() == current@,
            strings_view(components@) == split_pieces(name.take(i as int), windows).take(done as int).filter(normal_of),
            windows == windows_paths(platform),
            bad == (has_rooted_start(name, windows)
                || (done > 0 && is_cur_dir(split_pieces(name.take(i as int), windows)[0]))
                || (exists|k: int| 0 <= k < done && is_parent_dir(#[trigger] split_pieces(name.take(i as int), windows)[k]))),
        decreases name.len() - i,
    {
        let ghost pre = split_pieces(name.take(i as int), windows);
        let c = chars[i];
        proof {
            assert(name.take(i as int + 1).drop_last() =~= name.take(i as int));
        }
        if c == '/' || (windows && c == '\\') {
            let piece_is_dot = is_dot(&current);
            let piece_is_dot_dot = is_dot_dot(&current);
            if (done == 0 && piece_is_dot) || piece_is_dot_dot {
                bad = true;
            }
            let ghost old_comp = components@;
            if current.len() > 0 && !piece_is_dot {
                components.push(chars_to_string(&current));
                assert(strings_view(components@) =~= strings_view(old_comp).push(current@));
            }
            proof {
                let post = split_pieces(name.take(i as int + 1), windows);
                assert(post == pre.push(Seq::<char>::empty()));
                assert(post.take(done as int + 1) =~= pre.take(done as int).push(current@));
                pre.take(done as int).lemma_filter_push(current@, normal_of);
                assert(pre.take(done as int).push(current@).filter(normal_of) =~= (if normal_of(current@) {
                    pre.take(done as int).filter(normal_of).push(current@)
                } else {
                    pre.take(done as int).filter(normal_of)
                }));
                assert(normal_of(current@) == (current@.len() > 0 && !is_cur_dir(current@)));
                assert(strings_view(old_comp) == pre.take(done as int).filter(normal_of));
                assert(post.take(done as int + 1).filter(normal_of) == pre.take(done as int).push(current@).filter(normal_of));
                assert(strings_view(components@) =~= post.take(done as int + 1).filter(normal_of));
                assert(post[done as int] == current@);
                if done == 0 {
                    assert(post[0] == current@);
                } else {
                    assert(post[0] == pre[0]);
                }
                assert forall|k: int| 0 <= k < done implies post[k] == pre[k] by {}
            }
            current = Vec::new();
            done = done + 1;
        } else {
            current.push(c);
            proof {
                let post = split_pieces(name.take(i as int + 1), windows);
                assert(post == pre.update(pre.len() - 1, pre.last().push(c)));
                assert(post.take(done as int) =~= pre.take(done as int));
                if done > 0 {
                    assert(post[0] == pre[0]);
                }
                assert forall|k: int| 0 <= k < done implies post[k] == pre[k] by {}
            }
        }
        i = i + 1;
    }
    proof {
        assert(name.take(name.len() as int) =~= name);
    }
    // the last piece
    let ghost pieces = split_pieces(name, windows);
    let piece_is_dot = is_dot(&current);
    let piece_is_dot_dot = is_dot_dot(&current);
    if (done == 0 && piece_is_dot) || piece_is_dot_dot {
        bad = true;
    }
    let ghost old_comp = components@;
    if current.len() > 0 && !piece_is_dot {
        components.push(chars_to_string(&current));
        assert(strings_view(components@) =~= strings_view(old_comp).push(current@));
    }
    proof {
        assert(pieces =~= pieces.take(done as int).push(current@));
        pieces.take(done as int).lemma_filter_push(current@, normal_of);
        assert(strings_view(components@) =~= pieces.filter(normal_of));
        assert(pieces[done as int] == current@);
        if bad != (has_rooted_start(name, windows) || is_cur_dir(pieces[0])
            || (exists|k: int| 0 <= k < pieces.len() && is_parent_dir(#[trigger] pieces[k]))) {
            if exists|k: int| 0 <= k < pieces.len() && is_parent_dir(#[trigger] pieces[k]) {
                let k = choose|k: int| 0 <= k < pieces.len() && is_parent_dir(#[trigger] pieces[k]);
                assert(k == done || is_parent_dir(pieces.take(done as int)[k]));
            }
            assert(false);
        }
    }
    if bad || components.len() == 0 {
        return Err(TransferError::UnsafeDestination(String::from_str(relative_name)));
    }
    Ok(RelativePath { components })
}

/// Position of the last "." in a name, or -1 when it has none.
pub open spec fn last_dot_index(s: Seq<char>) -> int
    decreases s.len(),
{
    if s.len() == 0 {
        -1
    } else if s.last() == '.' {
        s.len() - 1
    } else {
        last_dot_index(s.drop_last())
    }
}

/// The name without its extension; a name whose only dot leads it (".profile")
/// has no extension.
pub open spec fn file_stem(name: Seq<char>) -> Seq<char> {
    let k = last_dot_index(name);
    if k <= 0 { name } else { name.take(k) }
}

/// The text after the last dot, unless the name has no dot or only a leading one.
pub open spec fn file_extension(name: Seq<char>) -> Option<Seq<char>> {
    let k = last_dot_index(name);
    if k <= 0 { None } else { Some(name.skip(k + 1)) }
}

/// The `n`-th alternative to an existing name: "stem (n).ext", or "stem (n)"
/// for a name without extension.
pub open spec fn conflict_name(name: Seq<char>, n: nat) -> Seq<char> {
    let base = file_stem(name) + seq![' ', '('] + decimal_digits(n) + seq![')'];
    match file_extension(name) {
        Some(e) => base + seq!['.'] + e,
        None => base,
    }
}

proof fn lemma_last_dot_bounds(s: Seq<char>)
    ensures
        -1 <= last_dot_index(s) < s.len(),
        last_dot_index(s) >= 0 ==> s[last_dot_index(s)] == '.',
        forall|i: int| last_dot_index(s) < i < s.len() ==> s[i] != '.',
    decreases s.len(),
{
    if s.len() > 0 {
        lemma_last_dot_bounds(s.drop_last());
        if s.last() != '.' {
            assert forall|i: int| last_dot_index(s) < i < s.len() implies s[i] != '.' by {
                if i < s.len() - 1 {
                    assert(s[i] == s.drop_last()[i]);
                }
            }
        }
    }
}

proof fn lemma_last_dot_at(s: Seq<char>, k: int)
    requires
        -1 <= k < s.len(),
        k >= 0 ==> s[k] == '.',
        forall|j: int| k < j < s.len() ==> s[j] != '.',
    ensures
        last_dot_index(s) == k,
    decreases s.len(),
{
    if s.len() > 0 && k < s.len() - 1 {
        assert(s[s.len() - 1] != '.');
        lemma_last_dot_at(s.drop_last(), k);
    }
}

fn push_chars(s: &mut String, v: &Vec<char>, from: usize, to: usize)
    requires
        from <= to <= v@.len(),
    ensures
        final(s)@ == old(s)@ + v@.subrange(from as int, to as int),
{
    let mut i = from;
    while i < to
        invariant
            from <= i <= to,
            to <= v@.len(),
            s@ == old(s)@ + v@.subrange(from as int, i as int),
        decreases to - i,
    {
        push_char(s, v[i]);
        assert(v@.subrange(from as int, i as int + 1) =~= v@.subrange(from as int, i as int).push(v@[i as int]));
        i = i + 1;
    }
}

/// "stem (n).ext" (or "stem (n)") for a file name that already exists.
pub fn conflict_file_name(name: &String, suffix: u32) -> (r: String)
    ensures
        r@ == conflict_name(name@, suffix as nat),
{
    let chars = chars_of(name.as_str());
    proof {
        lemma_last_dot_bounds(chars@);
    }
    let mut dot: usize = chars.len();
    let mut found = false;
    let mut i: usize = chars.len();
    while i > 0
        invariant_except_break
            !found,
        invariant
            i <= chars@.len(),
            forall|j: int| i <= j < chars@.len() ==> chars@[j] != '.',
        ensures
            found ==> dot < chars@.len() && dot == last_dot_index(chars@),
            !found ==> forall|j: int| 0 <= j < chars@.len() ==> chars@[j] != '.',
        decreases i,
    {
        if chars[i - 1] == '.' {
            dot = i - 1;
            found = true;
            proof {
                lemma_last_dot_at(chars@, dot as int);
            }
            break;
        }
        i = i - 1;
    }
    proof {
        if !found {
            lemma_last_dot_at(chars@, -1);
        }
    }
    let mut r = String::new();
    let has_extension = found && dot > 0;
    if has_extension {
        push_chars(&mut r, &chars, 0, dot);
    } else {
        push_chars(&mut r, &chars, 0, chars.len());
    }
    push_char(&mut r, ' ');
    push_char(&mut r, '(');
    push_decimal(&mut r, suffix as u64);
    push_char(&mut r, ')');
    if has_extension {
        push_char(&mut r, '.');
        push_chars(&mut r, &chars, dot + 1, chars.len());
    }
    proof {
        assert(chars@.subrange(0, chars@.len() as int) =~= chars@);
        assert(chars@.subrange(0, dot as int) =~= chars@.take(dot as int));
        assert(chars@.subrange(dot as int + 1, chars@.len() as int) =~= chars@.skip(dot as int + 1));
        assert(r@ =~= conflict_name(chars@, suffix as nat));
    }
    r
}

/// What the caller saw at a path under the destination root.
#[derive(Debug, Clone, Copy, PartialEq, Eq, Structural)]
pub enum EntryState {
    /// Nothing is there (or only a dangling link).
    Missing,
    Directory,
    Symlink,
    /// A file or anything else that is not a directory.
    Other,
}

/// Where the resolver is: checking the `i`-th parent directory, or trying the
/// plain name (0) and then the numbered alternatives.
#[derive(Debug, Clone, Copy, PartialEq, Eq, Structural)]
pub enum ResolveStage {
    Parent(usize),
    Candidate(u32),
}

/// What the resolver asks of its caller next, or its verdict.
#[derive(Debug)]
pub enum ResolveStep {
    /// Look at this path (relative to the destination root) and report its state.
    Inspect(RelativePath),
    /// Write the file here: nothing exists at this path.
    Resolved(RelativePath),
    /// This parent directory is a symbolic link.
    ParentIsSymlink(RelativePath),
    /// This parent exists and is not a directory.
    ParentNotDirectory(RelativePath),
}

pub enum ResolveStepView {
    Inspect(Seq<Seq<char>>),
    Resolved(Seq<Seq<char>>),
    ParentIsSymlink(Seq<Seq<char>>),
    ParentNotDirectory(Seq<Seq<char>>),
}

impl View for ResolveStep {
    type V = ResolveStepView;

    open spec fn view(&self) -> ResolveStepView {
        match self {
            ResolveStep::Inspect(p) => ResolveStepView::Inspect(p@),
            ResolveStep::Resolved(p) => ResolveStepView::Resolved(p@),
            ResolveStep::ParentIsSymlink(p) => ResolveStepView::ParentIsSymlink(p@),
            ResolveStep::ParentNotDirectory(p) => ResolveStepView::ParentNotDirectory(p@),
        }
    }
}

/// The `k`-th place tried for `target`: the target itself, then the numbered
/// alternatives of its file name in the same directory.
pub open spec fn candidate_path(target: Seq<Seq<char>>, k: nat) -> Seq<Seq<char>> {
    if k == 0 { target } else { target.drop_last().push(conflict_name(target.last(), k)) }
}

/// The stage that follows the check of parent `i`.
pub open spec fn stage_after_parent(target: Seq<Seq<char>>, i: int) -> ResolveStage {
    if i + 1 < target.len() - 1 { ResolveStage::Parent((i + 1) as usize) } else { ResolveStage::Candidate(0) }
}

/// The first stage: the first parent directory, or the plain name when there is none.
pub open spec fn first_stage(target: Seq<Seq<char>>) -> ResolveStage {
    if target.len() > 1 { ResolveStage::Parent(0) } else { ResolveStage::Candidate(0) }
}

/// The path looked at in a stage.
pub open spec fn inspected_path(target: Seq<Seq<char>>, stage: ResolveStage) -> Seq<Seq<char>> {
    match stage {
        ResolveStage::Parent(i) => target.take(i + 1),
        ResolveStage::Candidate(k) => candidate_path(target, k as nat),
    }
}

/// The stage after observing `state` (unchanged once a verdict is reached).
pub open spec fn next_stage(target: Seq<Seq<char>>, stage: ResolveStage, state: EntryState) -> ResolveStage {
    match stage {
        ResolveStage::Parent(i) => match state {
            EntryState::Missing | EntryState::Directory => stage_after_parent(target, i as int),
            _ => stage,
        },
        ResolveStage::Candidate(k) => match state {
            EntryState::Missing => stage,
            _ => ResolveStage::Candidate((k + 1) as u32),
        },
    }
}

/// The step answered to `state`: a parent that is a link or not a directory
/// refuses the destination; a missing path is taken; otherwise the next place is
/// inspected.
pub open spec fn step_after(target: Seq<Seq<char>>, stage: ResolveStage, state: EntryState) -> ResolveStepView {
    match stage {
        ResolveStage::Parent(i) => match state {
            EntryState::Symlink => ResolveStepView::ParentIsSymlink(target.take(i + 1)),
            EntryState::Other => ResolveStepView::ParentNotDirectory(target.take(i + 1)),
            _ => ResolveStepView::Inspect(inspected_path(target, stage_after_parent(target, i as int))),
        },
        ResolveStage::Candidate(k) => match state {
            EntryState::Missing => ResolveStepView::Resolved(candidate_path(target, k as nat)),
            _ => ResolveStepView::Inspect(candidate_path(target, (k + 1) as nat)),
        },
    }
}

/// Resolves where a received file is written under the destination root: its
/// parent directories must not be links nor files, and an existing file is never
/// overwritten; the caller inspects the paths it is asked about.
pub struct DestinationResolver {
    target: RelativePath,
    stage: ResolveStage,
}

impl DestinationResolver {
    #[verifier::type_invariant]
    spec fn well_formed(self) -> bool {
        &&& self.target@.len() >= 1
        &&& match self.stage {
            ResolveStage::Parent(i) => i + 1 < self.target@.len(),
            ResolveStage::Candidate(k) => k < i32::MAX,
        }
    }

    /// The safe relative path being resolved.
    pub closed spec fn target(&self) -> Seq<Seq<char>> {
        self.target@
    }

    pub closed spec fn spec_stage(&self) -> ResolveStage {
        self.stage
    }

    /// The path whose state the resolver waits for.
    pub open spec fn inspecting(&self) -> Seq<Seq<char>> {
        inspected_path(self.target(), self.spec_stage())
    }

    pub fn stage(&self) -> (s: ResolveStage)
        ensures
            s == self.spec_stage(),
    {
        self.stage
    }

    /// Starts resolving `relative_name`, read with the path syntax of `platform`:
    /// refuses unsafe names, and otherwise asks
    /// about the first parent directory, or the plain name when there is none.
    pub fn start(relative_name: &str, platform: TargetPlatform) -> (r: Result<(DestinationResolver, ResolveStep), TransferError>)
        ensures
            match destination_components(relative_name@, platform) {
                Some(c) => r matches Ok((d, step)) && d.target() == c && d.spec_stage() == first_stage(c)
                    && step@ == ResolveStepView::Inspect(d.inspecting()),
                None => r matches Err(TransferError::UnsafeDestination(s)) && s@ == relative_name@,
            },
    {
        let target = match safe_relative_destination_path(relative_name, platform) {
            Ok(t) => t,
            Err(e) => return Err(e),
        };
        let stage = if target.components.len() > 1 { ResolveStage::Parent(0) } else { ResolveStage::Candidate(0) };
        let resolver = DestinationResolver { target, stage };
        let first = resolver.inspect_path(stage);
        Ok((resolver, ResolveStep::Inspect(first)))
    }

    fn inspect_path(&self, stage: ResolveStage) -> (p: RelativePath)
        requires
            self.target@.len() >= 1,
            match stage {
                ResolveStage::Parent(i) => i + 1 < self.target@.len(),
                ResolveStage::Candidate(k) => true,
            },
        ensures
            p@ == inspected_path(self.target@, stage),
    {
        match stage {
            ResolveStage::Parent(i) => {
                let n = self.target.components.len();
                let mut components: Vec<String> = Vec::new();
                let mut j: usize = 0;
                while j <= i
                    invariant
                        j <= i + 1,
                        i + 1 < n,
                        n == self.target@.len(),
                        self.target@.len() == self.target.components@.len(),
                        strings_view(components@) == self.target@.take(j as int),
                    decreases i + 1 - j,
                {
                    let ghost before = components@;
                    components.push(self.target.components[j].clone());
                    assert(strings_view(components@) =~= strings_view(before).push(self.target@[j as int]));
                    assert(strings_view(components@) =~= self.target@.take(j as int + 1));
                    j = j + 1;
                }
                RelativePath { components }
            },
            ResolveStage::Candidate(k) => {
                if k == 0 {
                    return self.target.clone();
                }
                let n = self.target.components.len();
                let mut components: Vec<String> = Vec::new();
                let mut j: usize = 0;
                while j + 1 < n
                    invariant
                        j + 1 <= n,
                        n == self.target@.len(),
                        self.target@.len() == self.target.components@.len(),
                        strings_view(components@) == self.target@.take(j as int),
                    decreases n - j,
                {
                    let ghost before = components@;
                    components.push(self.target.components[j].clone());
                    assert(strings_view(components@) =~= strings_view(before).push(self.target@[j as int]));
                    assert(strings_view(components@) =~= self.target@.take(j as int + 1));
                    j = j + 1;
                }
                let ghost before = components@;
                components.push(conflict_file_name(&self.target.components[n - 1], k));
                assert(strings_view(components@) =~= strings_view(before).push(conflict_name(self.target@[n - 1], k as nat)));
                assert(self.target@.take(n - 1) =~= self.target@.drop_last());
                assert(strings_view(components@) =~= candidate_path(self.target@, k as nat));
                RelativePath { components }
            },
        }
    }

    /// Takes the state of the path last asked about, and answers with the next
    /// path to inspect or a verdict. A path is only ever resolved right after it
    /// was seen missing. The numbered alternatives stop short of `i32::MAX`.
    pub fn observe(&mut self, state: EntryState) -> (step: ResolveStep)
        requires
            !(old(self).spec_stage() matches ResolveStage::Candidate(k) && k + 1 >= i32::MAX
                && state != EntryState::Missing),
        ensures
            final(self).target() == old(self).target(),
            final(self).spec_stage() == next_stage(old(self).target(), old(self).spec_stage(), state),
            step@ == step_after(old(self).target(), old(self).spec_stage(), state),
            step@ is Inspect ==> step@ == ResolveStepView::Inspect(final(self).inspecting()),
            step@ matches ResolveStepView::Resolved(p) ==> state == EntryState::Missing && p == old(self).inspecting(),
    {
        proof {
            use_type_invariant(&*self);
        }
        match self.stage {
            ResolveStage::Parent(i) => match state {
                EntryState::Symlink => ResolveStep::ParentIsSymlink(self.inspect_path(self.stage)),
                EntryState::Other => ResolveStep::ParentNotDirectory(self.inspect_path(self.stage)),
                _ => {
                    let n = self.target.components.len();
                    assert(i + 1 < n);
                    let next = if i + 1 < n - 1 {
                        ResolveStage::Parent(i + 1)
                    } else {
                        ResolveStage::Candidate(0)
                    };
                    self.stage = next;
                    ResolveStep::Inspect(self.inspect_path(next))
                },
            },
            ResolveStage::Candidate(k) => match state {
                EntryState::Missing => ResolveStep::Resolved(self.inspect_path(self.stage)),
                _ => {
                    let next = ResolveStage::Candidate(k + 1);
                    self.stage = next;
                    ResolveStep::Inspect(self.inspect_path(next))
                },
            },
        }
    }
}

/// A numbered alternative stays in the directory of the original name: only the
/// file name changes, and a name without extension gets none.
pub proof fn lemma_alternatives_keep_directory(target: Seq<Seq<char>>, k: nat)
    requires
        target.len() >= 1,
    ensures
        candidate_path(target, k).len() == target.len(),
        candidate_path(target, k).drop_last() == target.drop_last(),
        k > 0 && file_extension(target.last()) is None ==> candidate_path(target, k).last()
            == file_stem(target.last()) + seq![' ', '('] + decimal_digits(k) + seq![')'],
{
    if k > 0 {
        assert(candidate_path(target, k).drop_last() =~= target.drop_last());
    }
}

proof fn lemma_split_has_no_separator(s: Seq<char>, windows: bool)
    ensures
        forall|i: int, j: int| 0 <= i < split_pieces(s, windows).len() && 0 <= j < split_pieces(s, windows)[i].len()
            ==> !is_separator(split_pieces(s, windows)[i][j], windows),
    decreases s.len(),
{
    if s.len() > 0 {
        lemma_split_has_no_separator(s.drop_last(), windows);
        lemma_split_nonempty(s.drop_last(), windows);
        let pre = split_pieces(s.drop_last(), windows);
        let post = split_pieces(s, windows);
        if !is_separator(s.last(), windows) {
            assert forall|i: int, j: int| 0 <= i < post.len() && 0 <= j < post[i].len() implies !is_separator(post[i][j], windows) by {
                if i == post.len() - 1 && j == post[i].len() - 1 {
                } else if i == post.len() - 1 {
                    assert(post[i][j] == pre[i][j]);
                } else {
                    assert(post[i] == pre[i]);
                }
            }
        } else {
            assert forall|i: int, j: int| 0 <= i < post.len() && 0 <= j < post[i].len() implies !is_separator(post[i][j], windows) by {
                if i < post.len() - 1 {
                    assert(post[i] == pre[i]);
                }
            }
        }
    }
}

/// A destination accepted from a peer is a relative path of plain names: at least
/// one component, none empty, none "." or "..", none holding a separator of the
/// platform's path syntax (`/`, and on Windows `\` too); so it cannot leave the
/// destination root.
pub proof fn lemma_destination_components_are_plain_names(name: Seq<char>, platform: TargetPlatform)
    ensures
        destination_components(name, platform) matches Some(c) ==> {
            &&& c.len() >= 1
            &&& forall|i: int| 0 <= i < c.len() ==> {
                &&& (#[trigger] c[i]).len() > 0
                &&& !is_cur_dir(c[i])
                &&& !is_parent_dir(c[i])
                &&& forall|j: int| 0 <= j < c[i].len() ==> !is_separator(c[i][j], windows_paths(platform))
            }
        },
{
    broadcast use vstd::seq_lib::group_filter_ensures;
    let w = windows_paths(platform);
    let pieces = split_pieces(name, w);
    let pred = |p: Seq<char>| is_normal_piece(p);
    let normal = pieces.filter(pred);
    lemma_split_has_no_separator(name, w);
    if destination_components(name, platform) is Some {
        assert forall|i: int| 0 <= i < normal.len() implies {
            &&& (#[trigger] normal[i]).len() > 0
            &&& !is_cur_dir(normal[i])
            &&& !is_parent_dir(normal[i])
            &&& forall|j: int| 0 <= j < normal[i].len() ==> !is_separator(normal[i][j], w)
        } by {
            assert(pred(normal[i]));
            assert(normal.contains(normal[i]));
            pieces.lemma_filter_contains_rev(pred, normal[i]);
            assert(pieces.contains(normal[i]));
            let k = choose|k: int| 0 <= k < pieces.len() && pieces[k] == normal[i];
            assert(!is_parent_dir(pieces[k]));
        }
    }
}


/// The stage the resolver of `target` is in after its caller reported `states`,
/// in order, for the paths it was asked about.
pub open spec fn stage_after_run(target: Seq<Seq<char>>, states: Seq<EntryState>) -> ResolveStage
    decreases states.len(),
{
    if states.len() == 0 {
        first_stage(target)
    } else {
        next_stage(target, stage_after_run(target, states.drop_last()), states.last())
    }
}

/// A parent directory may be passed through when nothing is there yet or it is a
/// real directory.
pub open spec fn passable(state: EntryState) -> bool {
    state == EntryState::Missing || state == EntryState::Directory
}

/// Within the run `states`, parent `j` was asked about (the resolver was at stage
/// `Parent(j)`, inspecting `target.take(j + 1)`) and reported passable.
pub open spec fn parent_checked(target: Seq<Seq<char>>, states: Seq<EntryState>, j: int) -> bool {
    exists|m: int| 0 <= m < states.len()
        && #[trigger] stage_after_run(target, states.take(m)) == ResolveStage::Parent(j as usize)
        && passable(states[m])
}

proof fn lemma_run_invariant(target: Seq<Seq<char>>, states: Seq<EntryState>)
    requires
        1 <= target.len() <= usize::MAX,
    ensures
        stage_after_run(target, states) matches ResolveStage::Parent(i) ==> {
            &&& i + 1 < target.len()
            &&& forall|j: int| 0 <= j < i ==> #[trigger] parent_checked(target, states, j)
        },
        stage_after_run(target, states) is Candidate ==> forall|j: int| 0 <= j < target.len() - 1
            ==> #[trigger] parent_checked(target, states, j),
    decreases states.len(),
{
    if states.len() > 0 {
        let pre = states.drop_last();
        lemma_run_invariant(target, pre);
        let last_index = states.len() - 1;
        assert(states.take(last_index) =~= pre);
        assert forall|j: int| #[trigger] parent_checked(target, pre, j) implies parent_checked(target, states, j) by {
            let m = choose|m: int| 0 <= m < pre.len()
                && #[trigger] stage_after_run(target, pre.take(m)) == ResolveStage::Parent(j as usize)
                && passable(pre[m]);
            assert(states.take(m) =~= pre.take(m));
            assert(states[m] == pre[m]);
        }
        let now = stage_after_run(target, states);
        assert(now == next_stage(target, stage_after_run(target, pre), states.last()));
        match stage_after_run(target, pre) {
            ResolveStage::Parent(i) => {
                assert(forall|j: int| 0 <= j < i ==> #[trigger] parent_checked(target, pre, j));
                if passable(states.last()) {
                    assert(stage_after_run(target, states.take(last_index)) == ResolveStage::Parent(i));
                    assert(passable(states[last_index]));
                    assert(parent_checked(target, states, i as int));
                    assert(now == stage_after_parent(target, i as int));
                    assert forall|j: int| 0 <= j <= i implies #[trigger] parent_checked(target, states, j) by {
                        if j < i {
                            assert(parent_checked(target, pre, j));
                        }
                    }
                } else {
                    assert(now == ResolveStage::Parent(i));
                    assert forall|j: int| 0 <= j < i implies #[trigger] parent_checked(target, states, j) by {
                        assert(parent_checked(target, pre, j));
                    }
                }
            },
            ResolveStage::Candidate(k) => {
                assert(now is Candidate);
                assert forall|j: int| 0 <= j < target.len() - 1 implies #[trigger] parent_checked(target, states, j) by {
                    assert(parent_checked(target, pre, j));
                }
            },
        }
    }
}

/// The resolver checks every parent directory before it settles on a name: when
/// a run of reported states ends with the file's place resolved, each parent
/// prefix `target.take(j + 1)` of the target (`j < target.len() - 1`) was asked
/// about and reported missing or a directory. A parent that is a file or a link
/// therefore always stops the resolver before any name is chosen.
pub proof fn lemma_resolved_after_every_parent(target: Seq<Seq<char>>, states: Seq<EntryState>, state: EntryState)
    requires
        1 <= target.len() <= usize::MAX,
        step_after(target, stage_after_run(target, states), state) is Resolved,
    ensures
        forall|j: int| 0 <= j < target.len() - 1 ==> #[trigger] parent_checked(target, states, j),
        forall|j: int| 0 <= j < target.len() - 1 ==> #[trigger] inspected_path(target, ResolveStage::Parent(j as usize))
            == target.take(j + 1),
{
    lemma_run_invariant(target, states);
}

/// From the start, each parent directory reported missing or a directory moves the
/// resolver on to the next parent, in order, and after the last parent to the
/// plain name: after `k` such reports it inspects `target.take(k + 1)`, or the
/// target itself once every parent has been passed.
pub proof fn lemma_parents_in_order(target: Seq<Seq<char>>, states: Seq<EntryState>)
    requires
        1 <= target.len() <= usize::MAX,
        states.len() <= target.len() - 1,
        forall|i: int| 0 <= i < states.len() ==> passable(#[trigger] states[i]),
    ensures
        states.len() < target.len() - 1 ==> stage_after_run(target, states) == ResolveStage::Parent(states.len() as usize)
            && inspected_path(target, stage_after_run(target, states)) == target.take(states.len() as int + 1),
        states.len() == target.len() - 1 ==> stage_after_run(target, states) == ResolveStage::Candidate(0)
            && inspected_path(target, stage_after_run(target, states)) == target,
    decreases states.len(),
{
    if states.len() > 0 {
        let pre = states.drop_last();
        assert forall|i: int| 0 <= i < pre.len() implies passable(#[trigger] pre[i]) by {
            assert(pre[i] == states[i]);
        }
        lemma_parents_in_order(target, pre);
        assert(passable(states[states.len() - 1]));
    }
}

} // verus!
