//! Parsers for the structured output of the external tool.
//!
//! The branch listing arrives as one record per line, its eight fields
//! separated by a NUL byte; the upstream-tracking token is either empty or a
//! bracketed, comma-space-separated list of components. Both parsers are
//! all-or-nothing: the first malformed record aborts the whole batch.

use vstd::prelude::*;

use crate::branch::Branch;
use crate::branch::BranchView;
use crate::branch::CommitSummary;
use crate::branch::CommitSummaryView;
use crate::branch::Upstream;
use crate::branch::UpstreamTracking;
use crate::branch::UpstreamTrackingStatus;
use crate::branch::UpstreamView;
use crate::strutil::chars_eq;
use crate::strutil::chars_of;
use crate::strutil::parse_i64_chars;
use crate::strutil::parse_u32_chars;
use crate::strutil::spec_parse_i64;
use crate::strutil::spec_parse_u32;
use crate::strutil::spec_split;
use crate::strutil::spec_split_seq;
use crate::strutil::spec_starts_with;
use crate::strutil::all_digits;
use crate::strutil::is_digit_char;
use crate::strutil::lemma_parse_render_i64;
use crate::strutil::lemma_parse_render_u32;
use crate::strutil::lemma_render_nat;
use crate::strutil::lemma_split_join;
use crate::strutil::lemma_split_sep_free;
use crate::strutil::lemma_split_seq_concat;
use crate::strutil::lemma_split_seq_free;
use crate::strutil::render_i64;
use crate::strutil::render_u32;
use crate::strutil::spec_join;
use crate::strutil::split_chars;
use crate::strutil::split_chars_seq;
use crate::strutil::starts_with_at;
use crate::strutil::string_of_chars;
use crate::strutil::subvec;

verus! {

/// The field of a branch record, in wire order.
#[derive(Clone, Copy, Debug, PartialEq, Eq, Structural)]
pub enum BranchField {
    Head,
    ObjectName,
    Parent,
    RefName,
    UpstreamRef,
    Track,
    CommitterDate,
    Subject,
}

/// Why a batch of structured output was rejected.
#[derive(Clone, Copy, Debug, PartialEq, Eq, Structural)]
pub enum ParseError {
    /// A record ended before this field.
    MissingField(BranchField),
    /// The ref-name field did not carry the local-branch prefix.
    BadRefName,
    /// A nonempty tracking token did not open with a bracket.
    MissingOpenBracket,
    /// A nonempty tracking token did not close with a bracket.
    MissingCloseBracket,
    /// A numeric field did not hold a decimal integer in range.
    BadInteger,
}

/// Folds the components of a tracking token, left to right: `gone` ends the
/// scan, `ahead`/`behind` components update the counts, anything else is
/// ignored for forward compatibility.
pub open spec fn spec_track_components(
    cs: Seq<Seq<char>>,
    ahead: u32,
    behind: u32,
) -> Result<UpstreamTracking, ParseError>
    decreases cs.len(),
{
    if cs.len() == 0 {
        Ok(UpstreamTracking::Present(UpstreamTrackingStatus { ahead, behind }))
    } else if cs[0] == "gone"@ {
        Ok(UpstreamTracking::Gone)
    } else if spec_starts_with(cs[0], "ahead "@) {
        match spec_parse_u32(cs[0].skip("ahead "@.len() as int)) {
            Some(a) => spec_track_components(cs.drop_first(), a, behind),
            None => Err(ParseError::BadInteger),
        }
    } else if spec_starts_with(cs[0], "behind "@) {
        match spec_parse_u32(cs[0].skip("behind "@.len() as int)) {
            Some(b) => spec_track_components(cs.drop_first(), ahead, b),
            None => Err(ParseError::BadInteger),
        }
    } else {
        spec_track_components(cs.drop_first(), ahead, behind)
    }
}

/// What parsing an upstream-tracking token yields: the empty token counts as
/// up to date, anything else must be bracket-delimited, and its body is
/// folded by [`spec_track_components`].
pub open spec fn spec_parse_upstream_track(t: Seq<char>) -> Result<UpstreamTracking, ParseError> {
    if t.len() == 0 {
        Ok(UpstreamTracking::Present(UpstreamTrackingStatus { ahead: 0, behind: 0 }))
    } else if t[0] != '[' {
        Err(ParseError::MissingOpenBracket)
    } else if !(t.len() >= 2 && t.last() == ']') {
        Err(ParseError::MissingCloseBracket)
    } else {
        spec_track_components(spec_split_seq(t.subrange(1, t.len() - 1), ", "@), 0, 0)
    }
}

/// Parses an upstream-tracking token held as characters.
fn parse_upstream_track_chars(cs: &Vec<char>) -> (r: Result<UpstreamTracking, ParseError>)
    ensures
        r == spec_parse_upstream_track(cs@),
{
    if cs.len() == 0 {
        return Ok(UpstreamTracking::Present(UpstreamTrackingStatus { ahead: 0, behind: 0 }));
    }
    if cs[0] != '[' {
        return Err(ParseError::MissingOpenBracket);
    }
    if cs.len() < 2 || cs[cs.len() - 1] != ']' {
        return Err(ParseError::MissingCloseBracket);
    }
    let body = subvec(cs, 1, cs.len() - 1);
    let sep = chars_of(", ");
    proof {
        reveal_strlit(", ");
    }
    let comps = split_chars_seq(&body, &sep);
    let ghost dv = comps.deep_view();
    proof {
        assert(dv == spec_split_seq(cs@.subrange(1, cs@.len() - 1), ", "@));
        assert(dv.skip(0) =~= dv);
        assert(spec_parse_upstream_track(cs@) == spec_track_components(dv, 0, 0));
    }
    let gone = chars_of("gone");
    let ahead_p = chars_of("ahead ");
    let behind_p = chars_of("behind ");
    let mut ahead: u32 = 0;
    let mut behind: u32 = 0;
    let mut i: usize = 0;
    while i < comps.len()
        invariant
            i <= comps@.len(),
            dv == comps.deep_view(),
            dv.len() == comps@.len(),
            gone@ == "gone"@,
            ahead_p@ == "ahead "@,
            behind_p@ == "behind "@,
            spec_parse_upstream_track(cs@) == spec_track_components(
                dv.skip(i as int),
                ahead,
                behind,
            ),
        decreases comps@.len() - i,
    {
        let comp = &comps[i];
        proof {
            assert(dv.skip(i as int)[0] == dv[i as int]);
            assert(dv[i as int] == comps@[i as int].deep_view());
            assert(comps@[i as int].deep_view() =~= comps@[i as int]@);
            assert(dv.skip(i as int).drop_first() =~= dv.skip(i + 1));
        }
        if chars_eq(comp, &gone) {
            return Ok(UpstreamTracking::Gone);
        }
        proof {
            assert(comp@.skip(0) =~= comp@);
        }
        if starts_with_at(comp, &ahead_p, 0) {
            let num = subvec(comp, ahead_p.len(), comp.len());
            proof {
                assert(num@ =~= comp@.skip("ahead "@.len() as int));
            }
            match parse_u32_chars(&num) {
                Some(a) => {
                    ahead = a;
                },
                None => {
                    return Err(ParseError::BadInteger);
                },
            }
        } else if starts_with_at(comp, &behind_p, 0) {
            let num = subvec(comp, behind_p.len(), comp.len());
            proof {
                assert(num@ =~= comp@.skip("behind "@.len() as int));
            }
            match parse_u32_chars(&num) {
                Some(b) => {
                    behind = b;
                },
                None => {
                    return Err(ParseError::BadInteger);
                },
            }
        }
        i = i + 1;
    }
    proof {
        assert(dv.skip(i as int).len() == 0);
    }
    Ok(UpstreamTracking::Present(UpstreamTrackingStatus { ahead, behind }))
}

/// Parses an upstream-tracking token.
pub fn parse_upstream_track(upstream_track: &str) -> (r: Result<UpstreamTracking, ParseError>)
    ensures
        r == spec_parse_upstream_track(upstream_track@),
{
    let cs = chars_of(upstream_track);
    parse_upstream_track_chars(&cs)
}

/// The field a record with `n` fields stops short of.
pub open spec fn spec_missing_field(n: int) -> BranchField {
    if n <= 0 {
        BranchField::Head
    } else if n == 1 {
        BranchField::ObjectName
    } else if n == 2 {
        BranchField::Parent
    } else if n == 3 {
        BranchField::RefName
    } else if n == 4 {
        BranchField::UpstreamRef
    } else if n == 5 {
        BranchField::Track
    } else if n == 6 {
        BranchField::CommitterDate
    } else {
        BranchField::Subject
    }
}

fn missing_field(n: usize) -> (r: BranchField)
    ensures
        r == spec_missing_field(n as int),
{
    if n == 0 {
        BranchField::Head
    } else if n == 1 {
        BranchField::ObjectName
    } else if n == 2 {
        BranchField::Parent
    } else if n == 3 {
        BranchField::RefName
    } else if n == 4 {
        BranchField::UpstreamRef
    } else if n == 5 {
        BranchField::Track
    } else if n == 6 {
        BranchField::CommitterDate
    } else {
        BranchField::Subject
    }
}

/// What parsing one branch record yields: eight NUL-separated fields — the
/// HEAD marker, the object name, the parent object name, the ref name
/// carrying the local-branch prefix, the upstream ref name, the tracking
/// token, the committer date in unix seconds, and the subject line.
pub open spec fn spec_parse_branch_line(line: Seq<char>) -> Result<BranchView, ParseError> {
    let fs = spec_split(line, '\0');
    if fs.len() < 8 {
        Err(ParseError::MissingField(spec_missing_field(fs.len() as int)))
    } else if !spec_starts_with(fs[3], "refs/heads/"@) {
        Err(ParseError::BadRefName)
    } else {
        match spec_parse_upstream_track(fs[5]) {
            Err(e) => Err(e),
            Ok(tracking) => match spec_parse_i64(fs[6]) {
                None => Err(ParseError::BadInteger),
                Some(ts) => Ok(
                    BranchView {
                        is_head: fs[0] == seq!['*'],
                        name: fs[3].skip("refs/heads/"@.len() as int),
                        upstream: if fs[4].len() == 0 {
                            None
                        } else {
                            Some(UpstreamView { ref_name: fs[4], tracking })
                        },
                        most_recent_commit: Some(
                            CommitSummaryView {
                                sha: fs[1],
                                subject: fs[7],
                                commit_timestamp: ts,
                                has_parent: fs[2].len() > 0,
                            },
                        ),
                    },
                ),
            },
        }
    }
}

/// Parses one branch record held as characters.
fn parse_branch_line(line: &Vec<char>) -> (r: Result<Branch, ParseError>)
    ensures
        match r {
            Ok(b) => spec_parse_branch_line(line@) == Ok::<BranchView, ParseError>(b@),
            Err(e) => spec_parse_branch_line(line@) == Err::<BranchView, ParseError>(e),
        },
{
    let fields = split_chars(line, '\0');
    let ghost fs = fields.deep_view();
    proof {
        assert(fs == spec_split(line@, '\0'));
        assert forall|k: int| 0 <= k < fs.len() implies #[trigger] fs[k] =~= fields@[k]@ by {
            assert(fs[k] == fields@[k].deep_view());
        }
    }
    if fields.len() < 8 {
        return Err(ParseError::MissingField(missing_field(fields.len())));
    }
    let heads_p = chars_of("refs/heads/");
    proof {
        assert(fields@[3]@.skip(0) =~= fields@[3]@);
    }
    if !starts_with_at(&fields[3], &heads_p, 0) {
        return Err(ParseError::BadRefName);
    }
    let tracking = match parse_upstream_track_chars(&fields[5]) {
        Ok(t) => t,
        Err(e) => {
            return Err(e);
        },
    };
    let ts = match parse_i64_chars(&fields[6]) {
        Some(t) => t,
        None => {
            return Err(ParseError::BadInteger);
        },
    };
    let f0 = &fields[0];
    let is_head = f0.len() == 1 && f0[0] == '*';
    proof {
        if is_head {
            assert(fields@[0]@ =~= seq!['*']);
        } else {
            assert(fields@[0]@ != seq!['*']);
        }
    }
    let name_chars = subvec(&fields[3], heads_p.len(), fields[3].len());
    proof {
        assert(name_chars@ =~= fields@[3]@.skip("refs/heads/"@.len() as int));
    }
    let name = string_of_chars(&name_chars);
    let upstream = if fields[4].len() == 0 {
        None
    } else {
        Some(Upstream { ref_name: string_of_chars(&fields[4]), tracking })
    };
    let most_recent_commit = Some(
        CommitSummary {
            sha: string_of_chars(&fields[1]),
            subject: string_of_chars(&fields[7]),
            commit_timestamp: ts,
            has_parent: fields[2].len() > 0,
        },
    );
    let b = Branch { is_head, name, upstream, most_recent_commit };
    proof {
        let spec_b = spec_parse_branch_line(line@)->Ok_0;
        assert(b@.name == spec_b.name);
        assert(b@.upstream == spec_b.upstream);
        assert(b@.most_recent_commit == spec_b.most_recent_commit);
        assert(b@ == spec_b);
    }
    Ok(b)
}

/// Folds the records of a branch listing, skipping blank lines; the first
/// malformed record aborts the batch.
pub open spec fn spec_parse_branch_lines(ls: Seq<Seq<char>>) -> Result<Seq<BranchView>, ParseError>
    decreases ls.len(),
{
    if ls.len() == 0 {
        Ok(Seq::<BranchView>::empty())
    } else if ls[0].len() == 0 {
        spec_parse_branch_lines(ls.drop_first())
    } else {
        match spec_parse_branch_line(ls[0]) {
            Err(e) => Err(e),
            Ok(b) => match spec_parse_branch_lines(ls.drop_first()) {
                Err(e) => Err(e),
                Ok(rest) => Ok(seq![b] + rest),
            },
        }
    }
}

/// What parsing a whole branch listing yields.
pub open spec fn spec_parse_branch_input(input: Seq<char>) -> Result<Seq<BranchView>, ParseError> {
    spec_parse_branch_lines(spec_split(input, '\n'))
}

/// `rest` with `done` prepended to its payload.
pub open spec fn spec_prepend_parsed(
    done: Seq<BranchView>,
    rest: Result<Seq<BranchView>, ParseError>,
) -> Result<Seq<BranchView>, ParseError> {
    match rest {
        Ok(r) => Ok(done + r),
        Err(e) => Err(e),
    }
}

/// Parses a whole branch listing, one record per line.
pub fn parse_branch_input(input: &str) -> (r: Result<Vec<Branch>, ParseError>)
    ensures
        match r {
            Ok(bs) => spec_parse_branch_input(input@) == Ok::<Seq<BranchView>, ParseError>(
                bs.deep_view(),
            ),
            Err(e) => spec_parse_branch_input(input@) == Err::<Seq<BranchView>, ParseError>(e),
        },
{
    let cs = chars_of(input);
    let lines = split_chars(&cs, '\n');
    let ghost lv = lines.deep_view();
    let mut acc: Vec<Branch> = Vec::new();
    let mut i: usize = 0;
    proof {
        assert(lv.skip(0) =~= lv);
        assert(acc.deep_view() =~= Seq::<BranchView>::empty());
        if spec_parse_branch_lines(lv) is Ok {
            assert(acc.deep_view() + spec_parse_branch_lines(lv)->Ok_0 =~=
                spec_parse_branch_lines(lv)->Ok_0);
        }
    }
    while i < lines.len()
        invariant
            i <= lines@.len(),
            lv == lines.deep_view(),
            lv.len() == lines@.len(),
            spec_parse_branch_input(input@) == spec_prepend_parsed(
                acc.deep_view(),
                spec_parse_branch_lines(lv.skip(i as int)),
            ),
        decreases lines@.len() - i,
    {
        proof {
            assert(lv.skip(i as int)[0] == lv[i as int]);
            assert(lv[i as int] == lines@[i as int].deep_view());
            assert(lines@[i as int].deep_view() =~= lines@[i as int]@);
            assert(lv.skip(i as int).drop_first() =~= lv.skip(i + 1));
        }
        let line = &lines[i];
        if line.len() > 0 {
            let b = match parse_branch_line(line) {
                Ok(b) => b,
                Err(e) => {
                    return Err(e);
                },
            };
            let ghost old_dv = acc.deep_view();
            acc.push(b);
            proof {
                assert(acc.deep_view() =~= old_dv.push(b@));
                let rest = spec_parse_branch_lines(lv.skip(i + 1));
                if rest is Ok {
                    assert(old_dv + (seq![b@] + rest->Ok_0) =~= old_dv.push(b@) + rest->Ok_0);
                }
            }
        }
        i = i + 1;
    }
    proof {
        assert(lv.skip(i as int).len() == 0);
        assert(acc.deep_view() + Seq::<BranchView>::empty() =~= acc.deep_view());
    }
    Ok(acc)
}

/// Whether `s` may stand inside a record field: no field separator and no
/// record separator.
pub open spec fn wire_safe(s: Seq<char>) -> bool {
    forall|i: int| 0 <= i < s.len() ==> #[trigger] s[i] != '\0' && s[i] != '\n'
}

/// The canonical wire form of a tracking state: empty when fully up to
/// date, `[gone]` when the remote ref is gone, bracketed counts otherwise.
pub open spec fn render_track(t: UpstreamTracking) -> Seq<char> {
    match t {
        UpstreamTracking::Gone => "[gone]"@,
        UpstreamTracking::Present(s) => if s.ahead == 0 && s.behind == 0 {
            Seq::<char>::empty()
        } else {
            "["@ + "ahead "@ + render_u32(s.ahead) + ", "@ + "behind "@ + render_u32(s.behind)
                + "]"@
        },
    }
}

/// A branch whose fields can stand in a record without escaping.
pub open spec fn renderable_branch(b: BranchView) -> bool {
    &&& b.most_recent_commit is Some
    &&& wire_safe(b.name)
    &&& wire_safe(b.most_recent_commit->0.sha)
    &&& wire_safe(b.most_recent_commit->0.subject)
    &&& match b.upstream {
        Some(u) => u.ref_name.len() > 0 && wire_safe(u.ref_name),
        None => true,
    }
}

/// The eight fields of the wire record for `b`, with `parent` standing in
/// the parent-object field when the commit has a parent.
pub open spec fn render_branch_fields(b: BranchView, parent: Seq<char>) -> Seq<Seq<char>>
    recommends
        b.most_recent_commit is Some,
{
    let c = b.most_recent_commit->0;
    seq![
        if b.is_head {
            "*"@
        } else {
            " "@
        },
        c.sha,
        if c.has_parent {
            parent
        } else {
            Seq::<char>::empty()
        },
        "refs/heads/"@ + b.name,
        match b.upstream {
            Some(u) => u.ref_name,
            None => Seq::<char>::empty(),
        },
        match b.upstream {
            Some(u) => render_track(u.tracking),
            None => Seq::<char>::empty(),
        },
        render_i64(c.commit_timestamp),
        c.subject,
    ]
}

/// The wire record for `b`: its eight fields joined by the field separator.
pub open spec fn render_branch_line(b: BranchView, parent: Seq<char>) -> Seq<char>
    recommends
        b.most_recent_commit is Some,
{
    spec_join(render_branch_fields(b, parent), '\0')
}

proof fn lemma_digits_wire_safe(s: Seq<char>)
    requires
        all_digits(s),
    ensures
        wire_safe(s),
        forall|i: int| 0 <= i < s.len() ==> #[trigger] s[i] != ',',
{
    assert forall|i: int| 0 <= i < s.len() implies #[trigger] s[i] != '\0' && s[i] != '\n' by {
        assert(is_digit_char(s[i]));
    }
    assert forall|i: int| 0 <= i < s.len() implies #[trigger] s[i] != ',' by {
        assert(is_digit_char(s[i]));
    }
}

proof fn lemma_render_i64_wire_safe(t: i64)
    ensures
        wire_safe(render_i64(t)),
{
    let s = render_i64(t);
    if t < 0 {
        let m = render_nat_of(t);
        lemma_render_nat((0 - t as int) as nat);
        lemma_digits_wire_safe(m);
        assert forall|i: int| 0 <= i < s.len() implies #[trigger] s[i] != '\0' && s[i] != '\n' by {
            if i > 0 {
                assert(s[i] == m[i - 1]);
            }
        }
    } else {
        lemma_render_nat(t as nat);
        lemma_digits_wire_safe(s);
    }
}

/// The digit run of a negative value's rendering.
spec fn render_nat_of(t: i64) -> Seq<char>
    recommends
        t < 0,
{
    crate::strutil::render_nat((0 - t as int) as nat)
}

/// The canonical wire form of a tracking state parses back to that state.
pub proof fn lemma_track_round_trip(t: UpstreamTracking)
    ensures
        spec_parse_upstream_track(render_track(t)) == Ok::<UpstreamTracking, ParseError>(t),
{
    reveal_strlit("[gone]");
    reveal_strlit("gone");
    reveal_strlit("[");
    reveal_strlit("]");
    reveal_strlit(", ");
    reveal_strlit("ahead ");
    reveal_strlit("behind ");
    match t {
        UpstreamTracking::Gone => {
            let s = "[gone]"@;
            assert(s.len() == 6);
            assert(s[0] == '[');
            assert(s.last() == ']');
            let body = s.subrange(1, 5);
            assert(body =~= "gone"@);
            assert(forall|i: int|
                0 <= i < "gone"@.len() ==> #[trigger] "gone"@[i] != ", "@[0]);
            lemma_split_seq_free("gone"@, ", "@);
            assert(spec_track_components(seq!["gone"@], 0, 0) == Ok::<
                UpstreamTracking,
                ParseError,
            >(UpstreamTracking::Gone));
        },
        UpstreamTracking::Present(st) => {
            if st.ahead == 0 && st.behind == 0 {
            } else {
                let a = render_u32(st.ahead);
                let bd = render_u32(st.behind);
                lemma_render_nat(st.ahead as nat);
                lemma_render_nat(st.behind as nat);
                lemma_digits_wire_safe(a);
                lemma_digits_wire_safe(bd);
                let s = "["@ + "ahead "@ + a + ", "@ + "behind "@ + bd + "]"@;
                assert(s[0] == '[');
                assert(s.last() == ']');
                assert(s.len() >= 2);
                let body = s.subrange(1, s.len() - 1);
                let c1 = "ahead "@ + a;
                let c2 = "behind "@ + bd;
                assert(body =~= c1 + ", "@ + c2);
                assert(forall|i: int| 0 <= i < c1.len() ==> #[trigger] c1[i] != ',');
                assert(forall|i: int| 0 <= i < c2.len() ==> #[trigger] c2[i] != ',');
                assert(", "@[0] == ',');
                lemma_split_seq_concat(c1, c2, ", "@);
                lemma_split_seq_free(c2, ", "@);
                assert(spec_split_seq(body, ", "@) == seq![c1, c2]);
                // first component: an ahead count
                assert(c1 != "gone"@) by {
                    assert(c1[0] == 'a');
                    assert("gone"@[0] == 'g');
                }
                assert(c1.take("ahead "@.len() as int) =~= "ahead "@);
                assert(spec_starts_with(c1, "ahead "@));
                assert(c1.skip("ahead "@.len() as int) =~= a);
                lemma_parse_render_u32(st.ahead);
                // second component: a behind count
                assert(c2 != "gone"@) by {
                    assert(c2[0] == 'b');
                    assert("gone"@[0] == 'g');
                }
                assert(!spec_starts_with(c2, "ahead "@)) by {
                    if spec_starts_with(c2, "ahead "@) {
                        assert(c2.take("ahead "@.len() as int)[0] == c2[0]);
                        assert(c2[0] == 'b');
                        assert("ahead "@[0] == 'a');
                    }
                }
                assert(c2.take("behind "@.len() as int) =~= "behind "@);
                assert(spec_starts_with(c2, "behind "@));
                assert(c2.skip("behind "@.len() as int) =~= bd);
                lemma_parse_render_u32(st.behind);
                let cs = seq![c1, c2];
                assert(cs.drop_first() =~= seq![c2]);
                assert(seq![c2].drop_first() =~= Seq::<Seq<char>>::empty());
                assert(spec_track_components(cs, 0, 0) == spec_track_components(
                    seq![c2],
                    st.ahead,
                    0,
                ));
                assert(spec_track_components(seq![c2], st.ahead, 0) == spec_track_components(
                    Seq::<Seq<char>>::empty(),
                    st.ahead,
                    st.behind,
                ));
            }
        },
    }
}

/// Parsing one wire record reproduces the branch it renders, and the record
/// is a single line.
proof fn lemma_branch_line_round_trip(b: BranchView, parent: Seq<char>)
    requires
        renderable_branch(b),
        parent.len() > 0,
        wire_safe(parent),
    ensures
        spec_parse_branch_line(render_branch_line(b, parent)) == Ok::<BranchView, ParseError>(b),
        render_branch_line(b, parent).len() > 0,
        forall|i: int|
            0 <= i < render_branch_line(b, parent).len() ==> #[trigger] render_branch_line(
                b,
                parent,
            )[i] != '\n',
{
    reveal_strlit("*");
    reveal_strlit(" ");
    reveal_strlit("refs/heads/");
    reveal_strlit("[gone]");
    reveal_strlit("[");
    reveal_strlit("]");
    reveal_strlit(", ");
    reveal_strlit("ahead ");
    reveal_strlit("behind ");
    let c = b.most_recent_commit->0;
    let fields = render_branch_fields(b, parent);
    let line = render_branch_line(b, parent);
    // every field is free of separators
    lemma_render_i64_wire_safe(c.commit_timestamp);
    assert(wire_safe(fields[0]));
    assert(wire_safe(fields[2]));
    assert(wire_safe(fields[3])) by {
        let f = "refs/heads/"@ + b.name;
        assert forall|i: int| 0 <= i < f.len() implies #[trigger] f[i] != '\0' && f[i] != '\n' by {
            if i >= "refs/heads/"@.len() {
                assert(f[i] == b.name[i - "refs/heads/"@.len()]);
            }
        }
    }
    assert(wire_safe(fields[5])) by {
        match b.upstream {
            Some(u) => {
                lemma_track_wire_safe(u.tracking);
            },
            None => {},
        }
    }
    assert forall|k: int, i: int|
        0 <= k < fields.len() && 0 <= i < fields[k].len() implies #[trigger] fields[k][i]
        != '\0' by {
        assert(wire_safe(fields[k]));
    }
    lemma_split_join(fields, '\0');
    // the line holds no record separator, so it stays one record
    assert(line.len() > 0) by {
        assert(fields.len() > 1);
    }
    assert(forall|i: int| 0 <= i < line.len() ==> #[trigger] line[i] != '\n') by {
        lemma_join_keeps_chars(fields, '\0');
    }
    // the record parses back to the branch
    assert(spec_parse_branch_line(line) == Ok::<BranchView, ParseError>(b)) by {
        let fs = spec_split(line, '\0');
        assert(fs == fields);
        assert(fs.len() == 8);
        assert(fs[3].take("refs/heads/"@.len() as int) =~= "refs/heads/"@);
        assert(spec_starts_with(fs[3], "refs/heads/"@));
        match b.upstream {
            Some(u) => {
                lemma_track_round_trip(u.tracking);
            },
            None => {},
        }
        lemma_parse_render_i64(c.commit_timestamp);
        let parsed = spec_parse_branch_line(line)->Ok_0;
        assert(parsed.is_head == b.is_head) by {
            if b.is_head {
                assert(fs[0] =~= seq!['*']);
            } else {
                assert(fs[0][0] == ' ');
                assert(fs[0] != seq!['*']);
            }
        }
        assert(parsed.name =~= b.name);
        assert(parsed.upstream == b.upstream) by {
            match b.upstream {
                Some(u) => {
                    assert(fs[4].len() > 0);
                },
                None => {
                    assert(fs[4].len() == 0);
                },
            }
        }
        assert(parsed.most_recent_commit == b.most_recent_commit) by {
            assert(fs[2].len() > 0 <==> c.has_parent);
        }
    }
}

/// Parsing the wire record of a branch reproduces the branch exactly: the
/// HEAD marker, the object name, the presence of a parent, the ref name
/// stripped of its prefix, the upstream with its tracking state, the
/// timestamp, and the subject.
pub proof fn lemma_branch_round_trip(b: BranchView, parent: Seq<char>)
    requires
        renderable_branch(b),
        parent.len() > 0,
        wire_safe(parent),
    ensures
        spec_parse_branch_input(render_branch_line(b, parent)) == Ok::<Seq<BranchView>, ParseError>(
            seq![b],
        ),
{
    lemma_branch_line_round_trip(b, parent);
    let line = render_branch_line(b, parent);
    lemma_split_sep_free(line, '\n');
    assert(spec_split(line, '\n') == seq![line]);
    assert(seq![line].drop_first() =~= Seq::<Seq<char>>::empty());
    assert(spec_parse_branch_lines(Seq::<Seq<char>>::empty()) == Ok::<Seq<BranchView>, ParseError>(
        Seq::<BranchView>::empty(),
    ));
    assert(spec_parse_branch_lines(seq![line]) == Ok::<Seq<BranchView>, ParseError>(
        seq![b] + Seq::<BranchView>::empty(),
    ));
    assert(seq![b] + Seq::<BranchView>::empty() =~= seq![b]);
}

proof fn lemma_track_wire_safe(t: UpstreamTracking)
    ensures
        wire_safe(render_track(t)),
{
    reveal_strlit("[gone]");
    reveal_strlit("[");
    reveal_strlit("]");
    reveal_strlit(", ");
    reveal_strlit("ahead ");
    reveal_strlit("behind ");
    match t {
        UpstreamTracking::Gone => {},
        UpstreamTracking::Present(st) => {
            if st.ahead == 0 && st.behind == 0 {
            } else {
                lemma_render_nat(st.ahead as nat);
                lemma_render_nat(st.behind as nat);
                lemma_digits_wire_safe(render_u32(st.ahead));
                lemma_digits_wire_safe(render_u32(st.behind));
                let s = render_track(t);
                let a = render_u32(st.ahead);
                let bd = render_u32(st.behind);
                assert forall|i: int| 0 <= i < s.len() implies #[trigger] s[i] != '\0' && s[i]
                    != '\n' by {
                    let p1 = "["@.len() as int;
                    let p2 = p1 + "ahead "@.len();
                    let p3 = p2 + a.len();
                    let p4 = p3 + ", "@.len();
                    let p5 = p4 + "behind "@.len();
                    let p6 = p5 + bd.len();
                    if p2 <= i < p3 {
                        assert(s[i] == a[i - p2]);
                    } else if p5 <= i < p6 {
                        assert(s[i] == bd[i - p5]);
                    }
                }
            }
        },
    }
}

proof fn lemma_join_keeps_chars(ps: Seq<Seq<char>>, sep: char)
    requires
        ps.len() >= 1,
        forall|k: int, i: int|
            0 <= k < ps.len() && 0 <= i < ps[k].len() ==> #[trigger] ps[k][i] != '\n',
        sep != '\n',
    ensures
        forall|i: int| 0 <= i < spec_join(ps, sep).len() ==> #[trigger] spec_join(ps, sep)[i]
            != '\n',
    decreases ps.len(),
{
    if ps.len() == 1 {
        assert(forall|i: int| 0 <= i < ps[0].len() ==> #[trigger] ps[0][i] != '\n');
        assert(spec_join(ps, sep) == ps[0]);
    } else {
        let t = ps.drop_first();
        assert(forall|k: int, i: int|
            0 <= k < t.len() && 0 <= i < t[k].len() ==> #[trigger] t[k][i] != '\n');
        lemma_join_keeps_chars(t, sep);
        let s = spec_join(ps, sep);
        assert(s == ps[0] + seq![sep] + spec_join(t, sep));
        assert forall|i: int| 0 <= i < s.len() implies #[trigger] s[i] != '\n' by {
            if i < ps[0].len() {
                assert(s[i] == ps[0][i]);
            } else if i == ps[0].len() {
                assert(s[i] == sep);
            } else {
                assert(s[i] == spec_join(t, sep)[i - ps[0].len() - 1]);
            }
        }
    }
}

/// The wire listing of several branches: their records joined one per line.
pub open spec fn render_branch_listing(bs: Seq<BranchView>, parents: Seq<Seq<char>>) -> Seq<char>
    recommends
        bs.len() == parents.len(),
        bs.len() >= 1,
{
    spec_join(Seq::new(bs.len(), |i: int| render_branch_line(bs[i], parents[i])), '\n')
}

proof fn lemma_parse_lines_all(lines: Seq<Seq<char>>, bs: Seq<BranchView>)
    requires
        lines.len() == bs.len(),
        forall|i: int|
            0 <= i < lines.len() ==> (#[trigger] lines[i]).len() > 0 && spec_parse_branch_line(
                lines[i],
            ) == Ok::<BranchView, ParseError>(bs[i]),
    ensures
        spec_parse_branch_lines(lines) == Ok::<Seq<BranchView>, ParseError>(bs),
    decreases lines.len(),
{
    if lines.len() == 0 {
        assert(bs =~= Seq::<BranchView>::empty());
    } else {
        let lt = lines.drop_first();
        let bt = bs.drop_first();
        assert forall|i: int|
            0 <= i < lt.len() implies (#[trigger] lt[i]).len() > 0 && spec_parse_branch_line(lt[i])
            == Ok::<BranchView, ParseError>(bt[i]) by {
            assert(lt[i] == lines[i + 1]);
            assert(bt[i] == bs[i + 1]);
        }
        lemma_parse_lines_all(lt, bt);
        assert(seq![bs[0]] + bt =~= bs);
    }
}

/// Parsing a whole rendered listing reproduces every branch, in order.
pub proof fn lemma_branch_listing_round_trip(bs: Seq<BranchView>, parents: Seq<Seq<char>>)
    requires
        bs.len() == parents.len(),
        bs.len() >= 1,
        forall|k: int| 0 <= k < bs.len() ==> renderable_branch(#[trigger] bs[k]),
        forall|k: int|
            0 <= k < parents.len() ==> (#[trigger] parents[k]).len() > 0 && wire_safe(parents[k]),
    ensures
        spec_parse_branch_input(render_branch_listing(bs, parents)) == Ok::<
            Seq<BranchView>,
            ParseError,
        >(bs),
{
    let lines = Seq::new(bs.len(), |i: int| render_branch_line(bs[i], parents[i]));
    assert forall|k: int, i: int|
        0 <= k < lines.len() && 0 <= i < lines[k].len() implies #[trigger] lines[k][i] != '\n' by {
        lemma_branch_line_round_trip(bs[k], parents[k]);
    }
    lemma_split_join(lines, '\n');
    assert forall|i: int|
        0 <= i < lines.len() implies (#[trigger] lines[i]).len() > 0 && spec_parse_branch_line(
        lines[i],
    ) == Ok::<BranchView, ParseError>(bs[i]) by {
        lemma_branch_line_round_trip(bs[i], parents[i]);
    }
    lemma_parse_lines_all(lines, bs);
}

} // verus!
