//! Construction of the external tool's invocations and classification of
//! their results.
//!
//! Every write or network operation runs the external tool as
//! `<tool> <subcommand> [flags] [--] [args]`; the functions here build those
//! argument lists from plain values, decide success from the exit status,
//! and parse the text the tool prints. Exit status zero is success; any
//! other status is a hard failure carrying the captured diagnostic text.

use vstd::prelude::*;

use crate::branch::Branch;
use crate::branch::BranchView;
use crate::branch::DiffType;
use crate::branch::PushOptions;
use crate::branch::Remote;
use crate::branch::ResetMode;
use crate::parse::parse_branch_input;
use crate::parse::spec_parse_branch_input;
use crate::parse::ParseError;
use crate::repo_path::RepoPath;
use crate::strutil::chars_eq;
use crate::strutil::chars_of;
use crate::strutil::spec_split;
use crate::strutil::spec_split_seq;
use crate::strutil::spec_starts_with;
use crate::strutil::spec_trim;
use crate::strutil::split_chars;
use crate::strutil::split_chars_seq;
use crate::strutil::starts_with_at;
use crate::strutil::string_of_chars;
use crate::strutil::subvec;
use crate::strutil::trim_chars;

verus! {

/// A failed invocation of the external tool, with its diagnostic text.
#[derive(Clone, Debug, PartialEq, Eq)]
pub struct CommandError {
    pub message: String,
}

/// An error message built from a fixed heading and the captured diagnostic
/// text.
fn command_failure(prefix: &str, stderr: &str) -> (r: CommandError)
    ensures
        r.message@ == prefix@ + stderr@,
{
    CommandError { message: String::from_str(prefix).concat(stderr) }
}

/// Classifies a `reset` invocation.
pub fn reset_outcome(success: bool, stderr: &str) -> (r: Result<(), CommandError>)
    ensures
        success <==> r is Ok,
        !success ==> r->Err_0.message@ == "Failed to reset:\n"@ + stderr@,
{
    if success {
        Ok(())
    } else {
        Err(command_failure("Failed to reset:\n", stderr))
    }
}

/// Classifies a `checkout` invocation.
pub fn checkout_files_outcome(success: bool, stderr: &str) -> (r: Result<(), CommandError>)
    ensures
        success <==> r is Ok,
        !success ==> r->Err_0.message@ == "Failed to checkout files:\n"@ + stderr@,
{
    if success {
        Ok(())
    } else {
        Err(command_failure("Failed to checkout files:\n", stderr))
    }
}

/// Classifies the staging `update-index` invocation.
pub fn stage_outcome(success: bool, stderr: &str) -> (r: Result<(), CommandError>)
    ensures
        success <==> r is Ok,
        !success ==> r->Err_0.message@ == "Failed to stage:\n"@ + stderr@,
{
    if success {
        Ok(())
    } else {
        Err(command_failure("Failed to stage:\n", stderr))
    }
}

/// Classifies the unstaging `update-index` invocation.
pub fn unstage_outcome(success: bool, stderr: &str) -> (r: Result<(), CommandError>)
    ensures
        success <==> r is Ok,
        !success ==> r->Err_0.message@ == "Failed to unstage:\n"@ + stderr@,
{
    if success {
        Ok(())
    } else {
        Err(command_failure("Failed to unstage:\n", stderr))
    }
}

/// Classifies the batched staging invocation.
pub fn stage_paths_outcome(success: bool, stderr: &str) -> (r: Result<(), CommandError>)
    ensures
        success <==> r is Ok,
        !success ==> r->Err_0.message@ == "Failed to stage paths:\n"@ + stderr@,
{
    if success {
        Ok(())
    } else {
        Err(command_failure("Failed to stage paths:\n", stderr))
    }
}

/// Classifies a `commit` invocation.
pub fn commit_outcome(success: bool, stderr: &str) -> (r: Result<(), CommandError>)
    ensures
        success <==> r is Ok,
        !success ==> r->Err_0.message@ == "Failed to commit:\n"@ + stderr@,
{
    if success {
        Ok(())
    } else {
        Err(command_failure("Failed to commit:\n", stderr))
    }
}

/// Classifies a `diff` invocation; on success the captured output is the
/// diff text.
pub fn diff_outcome(success: bool, stdout: String, stderr: &str) -> (r: Result<
    String,
    CommandError,
>)
    ensures
        success <==> r is Ok,
        success ==> r->Ok_0 == stdout,
        !success ==> r->Err_0.message@ == "Failed to run git diff:\n"@ + stderr@,
{
    if success {
        Ok(stdout)
    } else {
        Err(command_failure("Failed to run git diff:\n", stderr))
    }
}

/// Classifies a branch-listing invocation; on success the captured output
/// is the listing.
pub fn branches_outcome(success: bool, stdout: String, stderr: &str) -> (r: Result<
    String,
    CommandError,
>)
    ensures
        success <==> r is Ok,
        success ==> r->Ok_0 == stdout,
        !success ==> r->Err_0.message@ == "Failed to git git branches:\n"@ + stderr@,
{
    if success {
        Ok(stdout)
    } else {
        Err(command_failure("Failed to git git branches:\n", stderr))
    }
}

/// Classifies a `remote` enumeration; on success the captured output lists
/// the remotes.
pub fn remotes_outcome(success: bool, stdout: String, stderr: &str) -> (r: Result<
    String,
    CommandError,
>)
    ensures
        success <==> r is Ok,
        success ==> r->Ok_0 == stdout,
        !success ==> r->Err_0.message@ == "Failed to get remotes:\n"@ + stderr@,
{
    if success {
        Ok(stdout)
    } else {
        Err(command_failure("Failed to get remotes:\n", stderr))
    }
}

/// The `--mixed` or `--soft` flag of a reset.
pub open spec fn spec_reset_flag(mode: ResetMode) -> Seq<char> {
    match mode {
        ResetMode::Mixed => "--mixed"@,
        ResetMode::Soft => "--soft"@,
    }
}

/// Arguments of a `reset`.
pub fn reset_args(mode: ResetMode, commit: &str) -> (r: Vec<String>)
    ensures
        r.deep_view() == seq!["reset"@, spec_reset_flag(mode), commit@],
{
    let flag = match mode {
        ResetMode::Mixed => "--mixed",
        ResetMode::Soft => "--soft",
    };
    let mut r: Vec<String> = Vec::new();
    r.push(String::from_str("reset"));
    r.push(String::from_str(flag));
    r.push(String::from_str(commit));
    proof {
        assert(r.deep_view() =~= seq!["reset"@, spec_reset_flag(mode), commit@]);
    }
    r
}

/// Appends the texts of `paths` to an argument list.
fn push_paths(r: &mut Vec<String>, paths: &Vec<RepoPath>)
    ensures
        final(r).deep_view() == old(r).deep_view() + paths.deep_view(),
{
    let ghost base = r.deep_view();
    let mut i: usize = 0;
    while i < paths.len()
        invariant
            i <= paths@.len(),
            r.deep_view() == base + paths.deep_view().take(i as int),
        decreases paths@.len() - i,
    {
        let ghost before = r.deep_view();
        r.push(String::from_str(paths[i].as_str()));
        proof {
            assert(r.deep_view() =~= before.push(paths@[i as int].deep_view()));
            assert(paths.deep_view()[i as int] == paths@[i as int].deep_view());
            assert(base + paths.deep_view().take(i + 1) =~= (base + paths.deep_view().take(
                i as int,
            )).push(paths.deep_view()[i as int]));
        }
        i = i + 1;
    }
    proof {
        assert(paths.deep_view().take(i as int) =~= paths.deep_view());
    }
}

/// Arguments of a `checkout` restricted to the given paths.
pub fn checkout_files_args(commit: &str, paths: &Vec<RepoPath>) -> (r: Vec<String>)
    ensures
        r.deep_view() == seq!["checkout"@, commit@, "--"@] + paths.deep_view(),
{
    let mut r: Vec<String> = Vec::new();
    r.push(String::from_str("checkout"));
    r.push(String::from_str(commit));
    r.push(String::from_str("--"));
    proof {
        assert(r.deep_view() =~= seq!["checkout"@, commit@, "--"@]);
    }
    push_paths(&mut r, paths);
    r
}

/// Arguments of the `hash-object` call that writes a blob from its input.
pub fn hash_object_args() -> (r: Vec<String>)
    ensures
        r.deep_view() == seq!["hash-object"@, "-w"@, "--stdin"@],
{
    let mut r: Vec<String> = Vec::new();
    r.push(String::from_str("hash-object"));
    r.push(String::from_str("-w"));
    r.push(String::from_str("--stdin"));
    proof {
        assert(r.deep_view() =~= seq!["hash-object"@, "-w"@, "--stdin"@]);
    }
    r
}

/// Arguments of the `update-index` call that registers a blob at a path as
/// a regular, non-executable file.
pub fn update_index_add_args(sha: &str, path: &RepoPath) -> (r: Vec<String>)
    ensures
        r.deep_view() == seq![
            "update-index"@,
            "--add"@,
            "--cacheinfo"@,
            "100644"@,
            sha@,
            path@,
        ],
{
    let mut r: Vec<String> = Vec::new();
    r.push(String::from_str("update-index"));
    r.push(String::from_str("--add"));
    r.push(String::from_str("--cacheinfo"));
    r.push(String::from_str("100644"));
    r.push(String::from_str(sha));
    r.push(String::from_str(path.as_str()));
    proof {
        assert(r.deep_view() =~= seq![
            "update-index"@,
            "--add"@,
            "--cacheinfo"@,
            "100644"@,
            sha@,
            path@,
        ]);
    }
    r
}

/// Arguments of the `update-index` call that removes a path from the index.
pub fn update_index_remove_args(path: &RepoPath) -> (r: Vec<String>)
    ensures
        r.deep_view() == seq!["update-index"@, "--force-remove"@, path@],
{
    let mut r: Vec<String> = Vec::new();
    r.push(String::from_str("update-index"));
    r.push(String::from_str("--force-remove"));
    r.push(String::from_str(path.as_str()));
    proof {
        assert(r.deep_view() =~= seq!["update-index"@, "--force-remove"@, path@]);
    }
    r
}

/// Arguments of the batched staging call that updates the index to match
/// the worktree at the given paths.
pub fn stage_paths_args(paths: &Vec<RepoPath>) -> (r: Vec<String>)
    ensures
        r.deep_view() == seq!["update-index"@, "--add"@, "--remove"@, "--"@] + paths.deep_view(),
{
    let mut r: Vec<String> = Vec::new();
    r.push(String::from_str("update-index"));
    r.push(String::from_str("--add"));
    r.push(String::from_str("--remove"));
    r.push(String::from_str("--"));
    proof {
        assert(r.deep_view() =~= seq!["update-index"@, "--add"@, "--remove"@, "--"@]);
    }
    push_paths(&mut r, paths);
    r
}

/// Arguments of the batched unstaging call that updates the index to match
/// HEAD at the given paths.
pub fn unstage_paths_args(paths: &Vec<RepoPath>) -> (r: Vec<String>)
    ensures
        r.deep_view() == seq!["reset"@, "--quiet"@, "--"@] + paths.deep_view(),
{
    let mut r: Vec<String> = Vec::new();
    r.push(String::from_str("reset"));
    r.push(String::from_str("--quiet"));
    r.push(String::from_str("--"));
    proof {
        assert(r.deep_view() =~= seq!["reset"@, "--quiet"@, "--"@]);
    }
    push_paths(&mut r, paths);
    r
}

/// The `--author` value built from a committer name and address.
pub open spec fn spec_author_arg(name: Seq<char>, email: Seq<char>) -> Seq<char> {
    name + " <"@ + email + ">"@
}

/// Arguments of a `commit`, with an optional explicit author.
pub fn commit_args(message: &str, name_and_email: Option<(&str, &str)>) -> (r: Vec<String>)
    ensures
        r.deep_view() == seq!["commit"@, "--quiet"@, "-m"@, message@, "--cleanup=strip"@] + match (
        name_and_email) {
            Some(ne) => seq!["--author"@, spec_author_arg(ne.0@, ne.1@)],
            None => Seq::<Seq<char>>::empty(),
        },
{
    let mut r: Vec<String> = Vec::new();
    r.push(String::from_str("commit"));
    r.push(String::from_str("--quiet"));
    r.push(String::from_str("-m"));
    r.push(String::from_str(message));
    r.push(String::from_str("--cleanup=strip"));
    let ghost head = seq!["commit"@, "--quiet"@, "-m"@, message@, "--cleanup=strip"@];
    proof {
        assert(r.deep_view() =~= head);
    }
    match name_and_email {
        Some((name, email)) => {
            r.push(String::from_str("--author"));
            let author = String::from_str(name).concat(" <").concat(email).concat(">");
            r.push(author);
            proof {
                assert(r.deep_view() =~= head + seq![
                    "--author"@,
                    spec_author_arg(name@, email@),
                ]);
            }
        },
        None => {
            proof {
                assert(r.deep_view() =~= head + Seq::<Seq<char>>::empty());
            }
        },
    }
    r
}

/// The flag a push option adds.
pub open spec fn spec_push_flag(option: PushOptions) -> Seq<char> {
    match option {
        PushOptions::SetUpstream => "--set-upstream"@,
        PushOptions::Force => "--force-with-lease"@,
    }
}

/// The `branch:branch` refspec of a push.
pub open spec fn spec_push_refspec(branch: Seq<char>) -> Seq<char> {
    branch + ":"@ + branch
}

/// Arguments of a `push`.
pub fn push_args(branch_name: &str, remote_name: &str, options: Option<PushOptions>) -> (r: Vec<
    String,
>)
    ensures
        r.deep_view() == seq!["push"@] + match options {
            Some(option) => seq![spec_push_flag(option)],
            None => Seq::<Seq<char>>::empty(),
        } + seq![remote_name@, spec_push_refspec(branch_name@)],
{
    let mut r: Vec<String> = Vec::new();
    r.push(String::from_str("push"));
    match options {
        Some(PushOptions::SetUpstream) => r.push(String::from_str("--set-upstream")),
        Some(PushOptions::Force) => r.push(String::from_str("--force-with-lease")),
        None => {},
    }
    r.push(String::from_str(remote_name));
    let refspec = String::from_str(branch_name).concat(":").concat(branch_name);
    r.push(refspec);
    proof {
        assert(r.deep_view() =~= seq!["push"@] + match options {
            Some(option) => seq![spec_push_flag(option)],
            None => Seq::<Seq<char>>::empty(),
        } + seq![remote_name@, spec_push_refspec(branch_name@)]);
    }
    r
}

/// Arguments of a `pull`.
pub fn pull_args(branch_name: &str, remote_name: &str) -> (r: Vec<String>)
    ensures
        r.deep_view() == seq!["pull"@, remote_name@, branch_name@],
{
    let mut r: Vec<String> = Vec::new();
    r.push(String::from_str("pull"));
    r.push(String::from_str(remote_name));
    r.push(String::from_str(branch_name));
    proof {
        assert(r.deep_view() =~= seq!["pull"@, remote_name@, branch_name@]);
    }
    r
}

/// Arguments of a `fetch` of all remotes.
pub fn fetch_args() -> (r: Vec<String>)
    ensures
        r.deep_view() == seq!["fetch"@, "--all"@],
{
    let mut r: Vec<String> = Vec::new();
    r.push(String::from_str("fetch"));
    r.push(String::from_str("--all"));
    proof {
        assert(r.deep_view() =~= seq!["fetch"@, "--all"@]);
    }
    r
}

/// Arguments of a `diff` between HEAD and the index or the worktree.
pub fn diff_args(diff: DiffType) -> (r: Vec<String>)
    ensures
        r.deep_view() == match diff {
            DiffType::HeadToIndex => seq!["diff"@, "--staged"@],
            DiffType::HeadToWorktree => seq!["diff"@],
        },
{
    let mut r: Vec<String> = Vec::new();
    r.push(String::from_str("diff"));
    match diff {
        DiffType::HeadToIndex => {
            r.push(String::from_str("--staged"));
            proof {
                assert(r.deep_view() =~= seq!["diff"@, "--staged"@]);
            }
        },
        DiffType::HeadToWorktree => {
            proof {
                assert(r.deep_view() =~= seq!["diff"@]);
            }
        },
    }
    r
}

/// Arguments of the branch-listing call: one record per local branch, the
/// eight fields separated by NUL bytes.
pub fn branches_args() -> (r: Vec<String>)
    ensures
        r.deep_view() == seq![
            "for-each-ref"@,
            "refs/heads/**/*"@,
            "--format"@,
            "%(HEAD)%00%(objectname)%00%(parent)%00%(refname)%00%(upstream)%00%(upstream:track)%00%(committerdate:unix)%00%(contents:subject)"@,
        ],
{
    let mut r: Vec<String> = Vec::new();
    r.push(String::from_str("for-each-ref"));
    r.push(String::from_str("refs/heads/**/*"));
    r.push(String::from_str("--format"));
    r.push(
        String::from_str(
            "%(HEAD)%00%(objectname)%00%(parent)%00%(refname)%00%(upstream)%00%(upstream:track)%00%(committerdate:unix)%00%(contents:subject)",
        ),
    );
    proof {
        assert(r.deep_view() =~= seq![
            "for-each-ref"@,
            "refs/heads/**/*"@,
            "--format"@,
            "%(HEAD)%00%(objectname)%00%(parent)%00%(refname)%00%(upstream)%00%(upstream:track)%00%(committerdate:unix)%00%(contents:subject)"@,
        ]);
    }
    r
}

/// Arguments of the call that resolves the symbolic HEAD to a short branch
/// name; it fails when HEAD points at something other than a branch.
pub fn symbolic_head_args() -> (r: Vec<String>)
    ensures
        r.deep_view() == seq!["symbolic-ref"@, "--quiet"@, "--short"@, "HEAD"@],
{
    let mut r: Vec<String> = Vec::new();
    r.push(String::from_str("symbolic-ref"));
    r.push(String::from_str("--quiet"));
    r.push(String::from_str("--short"));
    r.push(String::from_str("HEAD"));
    proof {
        assert(r.deep_view() =~= seq!["symbolic-ref"@, "--quiet"@, "--short"@, "HEAD"@]);
    }
    r
}

/// The configuration key naming a branch's remote.
pub open spec fn spec_branch_remote_key(branch: Seq<char>) -> Seq<char> {
    "branch."@ + branch + ".remote"@
}

/// Arguments of the configuration lookup for a branch's remote.
pub fn config_remote_args(branch_name: &str) -> (r: Vec<String>)
    ensures
        r.deep_view() == seq!["config"@, "--get"@, spec_branch_remote_key(branch_name@)],
{
    let mut r: Vec<String> = Vec::new();
    r.push(String::from_str("config"));
    r.push(String::from_str("--get"));
    r.push(String::from_str("branch.").concat(branch_name).concat(".remote"));
    proof {
        assert(r.deep_view() =~= seq!["config"@, "--get"@, spec_branch_remote_key(branch_name@)]);
    }
    r
}

/// Arguments of the remote enumeration.
pub fn remote_args() -> (r: Vec<String>)
    ensures
        r.deep_view() == seq!["remote"@],
{
    let mut r: Vec<String> = Vec::new();
    r.push(String::from_str("remote"));
    proof {
        assert(r.deep_view() =~= seq!["remote"@]);
    }
    r
}

/// Arguments of the call that prints the SHA of HEAD.
pub fn rev_parse_head_args() -> (r: Vec<String>)
    ensures
        r.deep_view() == seq!["rev-parse"@, "HEAD"@],
{
    let mut r: Vec<String> = Vec::new();
    r.push(String::from_str("rev-parse"));
    r.push(String::from_str("HEAD"));
    proof {
        assert(r.deep_view() =~= seq!["rev-parse"@, "HEAD"@]);
    }
    r
}

/// Arguments of a merge-base computation between two refs.
pub fn merge_base_args(a: &str, b: &str) -> (r: Vec<String>)
    ensures
        r.deep_view() == seq!["merge-base"@, a@, b@],
{
    let mut r: Vec<String> = Vec::new();
    r.push(String::from_str("merge-base"));
    r.push(String::from_str(a));
    r.push(String::from_str(b));
    proof {
        assert(r.deep_view() =~= seq!["merge-base"@, a@, b@]);
    }
    r
}

/// The symbolic HEAD ref of a remote.
pub open spec fn spec_remote_head_ref(remote: Seq<char>) -> Seq<char> {
    "refs/remotes/"@ + remote + "/HEAD"@
}

/// Arguments of the call that resolves a remote's symbolic HEAD.
pub fn remote_head_args(remote: &str) -> (r: Vec<String>)
    ensures
        r.deep_view() == seq!["symbolic-ref"@, spec_remote_head_ref(remote@)],
{
    let mut r: Vec<String> = Vec::new();
    r.push(String::from_str("symbolic-ref"));
    r.push(String::from_str("refs/remotes/").concat(remote).concat("/HEAD"));
    proof {
        assert(r.deep_view() =~= seq!["symbolic-ref"@, spec_remote_head_ref(remote@)]);
    }
    r
}

/// Arguments of the call that names the checked-out branch's upstream ref.
pub fn upstream_head_args() -> (r: Vec<String>)
    ensures
        r.deep_view() == seq!["rev-parse"@, "--symbolic-full-name"@, "@{u}"@],
{
    let mut r: Vec<String> = Vec::new();
    r.push(String::from_str("rev-parse"));
    r.push(String::from_str("--symbolic-full-name"));
    r.push(String::from_str("@{u}"));
    proof {
        assert(r.deep_view() =~= seq!["rev-parse"@, "--symbolic-full-name"@, "@{u}"@]);
    }
    r
}

/// The one remote named by a successful configuration lookup: the printed
/// name, trimmed.
pub fn remote_from_config(stdout: &str) -> (r: Remote)
    ensures
        r@ == spec_trim(stdout@),
{
    let cs = chars_of(stdout);
    let t = trim_chars(&cs);
    Remote { name: string_of_chars(&t) }
}

/// The remote names among the printed lines: blank lines dropped, each name
/// trimmed, in printed order.
pub open spec fn spec_remote_names(ls: Seq<Seq<char>>) -> Seq<Seq<char>>
    decreases ls.len(),
{
    if ls.len() == 0 {
        Seq::<Seq<char>>::empty()
    } else {
        let rest = spec_remote_names(ls.drop_first());
        if ls[0].len() > 0 {
            seq![spec_trim(ls[0])] + rest
        } else {
            rest
        }
    }
}

/// Parses the output of the remote enumeration.
pub fn parse_remote_lines(stdout: &str) -> (r: Vec<Remote>)
    ensures
        r.deep_view() == spec_remote_names(spec_split(stdout@, '\n')),
{
    let cs = chars_of(stdout);
    let lines = split_chars(&cs, '\n');
    let ghost lv = lines.deep_view();
    let mut r: Vec<Remote> = Vec::new();
    let mut i: usize = 0;
    proof {
        assert(lv.skip(0) =~= lv);
        assert(r.deep_view() + spec_remote_names(lv) =~= spec_remote_names(lv));
    }
    while i < lines.len()
        invariant
            i <= lines@.len(),
            lv == lines.deep_view(),
            lv.len() == lines@.len(),
            spec_remote_names(lv) == r.deep_view() + spec_remote_names(lv.skip(i as int)),
        decreases lines@.len() - i,
    {
        proof {
            assert(lv.skip(i as int)[0] == lv[i as int]);
            assert(lv[i as int] == lines@[i as int].deep_view());
            assert(lines@[i as int].deep_view() =~= lines@[i as int]@);
            assert(lv.skip(i as int).drop_first() =~= lv.skip(i + 1));
        }
        let line = &lines[i];
        if line.len() > 0 {
            let t = trim_chars(line);
            let ghost old_dv = r.deep_view();
            r.push(Remote { name: string_of_chars(&t) });
            proof {
                assert(r.deep_view() =~= old_dv.push(spec_trim(lv[i as int])));
                assert(old_dv + (seq![spec_trim(lv[i as int])] + spec_remote_names(
                    lv.skip(i + 1),
                )) =~= old_dv.push(spec_trim(lv[i as int])) + spec_remote_names(lv.skip(i + 1)));
            }
        }
        i = i + 1;
    }
    proof {
        assert(lv.skip(i as int).len() == 0);
        assert(r.deep_view() + Seq::<Seq<char>>::empty() =~= r.deep_view());
    }
    r
}

/// The one branch synthesized for a repository with no parseable branch
/// records: the resolved symbolic HEAD name, checked out, with no upstream
/// and no commit metadata.
pub open spec fn spec_synthesized_branch(name: Seq<char>) -> BranchView {
    BranchView { is_head: true, name, upstream: None, most_recent_commit: None }
}

/// Turns the branch-listing output into branches. When the listing parses
/// to no records at all and the symbolic HEAD resolved to a name, the one
/// synthesized branch carries that name, trimmed; a parse failure aborts
/// the whole call.
pub fn branches_from_outputs(listing: &str, symbolic_head: Option<&str>) -> (r: Result<
    Vec<Branch>,
    ParseError,
>)
    ensures
        match r {
            Err(e) => spec_parse_branch_input(listing@) == Err::<Seq<BranchView>, ParseError>(e),
            Ok(bs) => {
                let parsed = spec_parse_branch_input(listing@);
                &&& parsed is Ok
                &&& if parsed->Ok_0.len() > 0 {
                    bs.deep_view() == parsed->Ok_0
                } else {
                    match symbolic_head {
                        Some(name) => bs.deep_view() == seq![
                            spec_synthesized_branch(spec_trim(name@)),
                        ],
                        None => bs.deep_view() == parsed->Ok_0,
                    }
                }
            },
        },
{
    let mut branches = match parse_branch_input(listing) {
        Ok(bs) => bs,
        Err(e) => {
            return Err(e);
        },
    };
    if branches.len() == 0 {
        match symbolic_head {
            Some(name) => {
                let t = trim_chars(&chars_of(name));
                let ghost old_dv = branches.deep_view();
                branches.push(
                    Branch {
                        name: string_of_chars(&t),
                        is_head: true,
                        upstream: None,
                        most_recent_commit: None,
                    },
                );
                proof {
                    assert(branches.deep_view() =~= old_dv.push(
                        spec_synthesized_branch(spec_trim(name@)),
                    ));
                    assert(old_dv.push(spec_synthesized_branch(spec_trim(name@))) =~= seq![
                        spec_synthesized_branch(spec_trim(name@)),
                    ]);
                }
            },
            None => {},
        }
    }
    Ok(branches)
}

/// A remote head whose ancestry against local HEAD has been computed: the
/// printed symbolic ref, and the printed merge-base when that call
/// succeeded.
#[derive(Clone, Debug, PartialEq, Eq)]
pub struct RemoteHeadCandidate {
    pub ref_output: String,
    pub merge_base_output: Option<String>,
}

/// Mathematical image of a [`RemoteHeadCandidate`].
pub struct RemoteHeadCandidateView {
    pub ref_output: Seq<char>,
    pub merge_base_output: Option<Seq<char>>,
}

impl View for RemoteHeadCandidate {
    type V = RemoteHeadCandidateView;

    open spec fn view(&self) -> RemoteHeadCandidateView {
        RemoteHeadCandidateView {
            ref_output: self.ref_output@,
            merge_base_output: match self.merge_base_output {
                Some(s) => Some(s@),
                None => None,
            },
        }
    }
}

impl DeepView for RemoteHeadCandidate {
    type V = RemoteHeadCandidateView;

    open spec fn deep_view(&self) -> RemoteHeadCandidateView {
        self.view()
    }
}

/// The reported name of a candidate, if it is pushed: its merge-base with
/// local HEAD must equal HEAD — the remote ref already contains the current
/// commit — and its ref must lie under the remote-tracking namespace, which
/// is stripped.
pub open spec fn spec_pushed_name(head: Seq<char>, c: RemoteHeadCandidateView) -> Option<
    Seq<char>,
> {
    match c.merge_base_output {
        Some(mb) => {
            let ref_name = spec_trim(c.ref_output);
            if spec_trim(mb) == head && spec_starts_with(ref_name, "refs/remotes/"@) {
                Some(ref_name.skip("refs/remotes/"@.len() as int))
            } else {
                None
            }
        },
        None => None,
    }
}

/// The pushed names among the candidates, in candidate order.
pub open spec fn spec_pushed_names(head: Seq<char>, cs: Seq<RemoteHeadCandidateView>) -> Seq<
    Seq<char>,
>
    decreases cs.len(),
{
    if cs.len() == 0 {
        Seq::<Seq<char>>::empty()
    } else {
        let rest = spec_pushed_names(head, cs.drop_first());
        match spec_pushed_name(head, cs[0]) {
            Some(n) => seq![n] + rest,
            None => rest,
        }
    }
}

/// What the pushed-commit check reports: the pushed remote main branches in
/// remote enumeration order, then the branch's own upstream when it is
/// pushed and not already listed.
pub open spec fn spec_check_for_pushed_commit(
    head_output: Seq<char>,
    remote_heads: Seq<RemoteHeadCandidateView>,
    upstream: Option<RemoteHeadCandidateView>,
) -> Seq<Seq<char>> {
    let head = spec_trim(head_output);
    let base = spec_pushed_names(head, remote_heads);
    match upstream {
        Some(c) => match spec_pushed_name(head, c) {
            Some(n) => if base.contains(n) {
                base
            } else {
                base.push(n)
            },
            None => base,
        },
        None => base,
    }
}

/// Evaluates one candidate against the trimmed local HEAD.
fn pushed_name_of(head: &Vec<char>, cand: &RemoteHeadCandidate) -> (r: Option<String>)
    ensures
        match r {
            Some(s) => spec_pushed_name(head@, cand@) == Some(s@),
            None => spec_pushed_name(head@, cand@) is None,
        },
{
    let mb = match &cand.merge_base_output {
        Some(mb) => mb,
        None => {
            return None;
        },
    };
    let mbt = trim_chars(&chars_of(mb.as_str()));
    if !chars_eq(&mbt, head) {
        return None;
    }
    let rn = trim_chars(&chars_of(cand.ref_output.as_str()));
    let prefix = chars_of("refs/remotes/");
    proof {
        assert(rn@.skip(0) =~= rn@);
    }
    if starts_with_at(&rn, &prefix, 0) {
        let stripped = subvec(&rn, prefix.len(), rn.len());
        proof {
            assert(stripped@ =~= spec_trim(cand@.ref_output).skip("refs/remotes/"@.len() as int));
        }
        Some(string_of_chars(&stripped))
    } else {
        None
    }
}

/// Whether `v` already holds the text `s`.
fn contains_string(v: &Vec<String>, s: &String) -> (r: bool)
    ensures
        r == v.deep_view().contains(s@),
{
    let mut i: usize = 0;
    while i < v.len()
        invariant
            i <= v@.len(),
            forall|j: int| 0 <= j < i ==> v.deep_view()[j] != s@,
        decreases v@.len() - i,
    {
        proof {
            assert(v.deep_view()[i as int] == v@[i as int]@);
        }
        if v[i].eq(s) {
            proof {
                assert(v.deep_view()[i as int] == s@);
            }
            return true;
        }
        i = i + 1;
    }
    proof {
        assert(!v.deep_view().contains(s@));
    }
    false
}

/// Reports the remote refs that already contain the current commit: the
/// remotes' main branches first, in enumeration order, then the checked-out
/// branch's own upstream when it matches and is not already listed.
pub fn check_for_pushed_commit(
    head_output: &str,
    remote_heads: &Vec<RemoteHeadCandidate>,
    upstream: &Option<RemoteHeadCandidate>,
) -> (r: Vec<String>)
    ensures
        r.deep_view() == spec_check_for_pushed_commit(
            head_output@,
            remote_heads.deep_view(),
            match upstream {
                Some(c) => Some(c@),
                None => None,
            },
        ),
{
    let head = trim_chars(&chars_of(head_output));
    let ghost hv = head@;
    let ghost cv = remote_heads.deep_view();
    let mut r: Vec<String> = Vec::new();
    let mut i: usize = 0;
    proof {
        assert(cv.skip(0) =~= cv);
        assert(r.deep_view() + spec_pushed_names(hv, cv) =~= spec_pushed_names(hv, cv));
    }
    while i < remote_heads.len()
        invariant
            i <= remote_heads@.len(),
            hv == head@,
            cv == remote_heads.deep_view(),
            cv.len() == remote_heads@.len(),
            spec_pushed_names(hv, cv) == r.deep_view() + spec_pushed_names(hv, cv.skip(i as int)),
        decreases remote_heads@.len() - i,
    {
        proof {
            assert(cv.skip(i as int)[0] == cv[i as int]);
            assert(cv[i as int] == remote_heads@[i as int].deep_view());
            assert(cv.skip(i as int).drop_first() =~= cv.skip(i + 1));
        }
        match pushed_name_of(&head, &remote_heads[i]) {
            Some(n) => {
                let ghost old_dv = r.deep_view();
                let ghost nv = n@;
                r.push(n);
                proof {
                    assert(r.deep_view() =~= old_dv.push(nv));
                    assert(old_dv + (seq![nv] + spec_pushed_names(hv, cv.skip(i + 1))) =~=
                        old_dv.push(nv) + spec_pushed_names(hv, cv.skip(i + 1)));
                }
            },
            None => {},
        }
        i = i + 1;
    }
    proof {
        assert(cv.skip(i as int).len() == 0);
        assert(r.deep_view() + Seq::<Seq<char>>::empty() =~= r.deep_view());
    }
    match upstream {
        Some(cand) => {
            match pushed_name_of(&head, cand) {
                Some(n) => {
                    if !contains_string(&r, &n) {
                        let ghost old_dv = r.deep_view();
                        let ghost nv = n@;
                        r.push(n);
                        proof {
                            assert(r.deep_view() =~= old_dv.push(nv));
                        }
                    }
                },
                None => {},
            }
        },
        None => {},
    }
    r
}

/// The file mode marking an index or tree entry as a symbolic link.
pub const GIT_MODE_SYMLINK: u32 = 0o120000;

/// The object to load for an index or tree entry: its identifier when the
/// entry is a regular file, and nothing when the path has no entry or the
/// entry is a symbolic link — callers must not distinguish those two
/// causes of absence.
pub fn loadable_entry_oid(entry: Option<(u32, String)>) -> (r: Option<String>)
    ensures
        r == match entry {
            Some(e) => if e.0 != GIT_MODE_SYMLINK {
                Some(e.1)
            } else {
                None::<String>
            },
            None => None::<String>,
        },
{
    match entry {
        Some((mode, oid)) => {
            if mode != GIT_MODE_SYMLINK {
                Some(oid)
            } else {
                None
            }
        },
        None => None,
    }
}

} // verus!
