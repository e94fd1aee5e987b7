//! Pairing of commit identifiers with their messages.
//!
//! The external tool prints the requested commit messages separated by a
//! fixed marker; each message is trimmed and its angle brackets are replaced
//! by entities before it is paired with the identifier it was requested for.

use vstd::prelude::*;

use crate::strutil::chars_of;
use crate::strutil::spec_split_seq;
use crate::strutil::spec_trim;
use crate::strutil::split_chars_seq;
use crate::strutil::string_of_chars;
use crate::strutil::subvec;
use crate::strutil::trim_chars;

verus! {

/// `s` with each `<` replaced by `&lt;` and each `>` by `&gt;`.
pub open spec fn escape_angles(s: Seq<char>) -> Seq<char>
    decreases s.len(),
{
    if s.len() == 0 {
        Seq::<char>::empty()
    } else {
        escape_angles(s.drop_last()) + (if s.last() == '<' {
            seq!['&', 'l', 't', ';']
        } else if s.last() == '>' {
            seq!['&', 'g', 't', ';']
        } else {
            seq![s.last()]
        })
    }
}

/// `ps` without a trailing empty piece, as a terminator-style split leaves
/// no piece after a final separator.
pub open spec fn drop_trailing_empty(ps: Seq<Seq<char>>) -> Seq<Seq<char>> {
    if ps.len() > 0 && ps.last().len() == 0 {
        ps.drop_last()
    } else {
        ps
    }
}

/// The identifier-message pairs read from the tool's output: the trimmed
/// output is split on the marker, a trailing empty chunk is dropped, each
/// message is trimmed and escaped, and messages are paired with the
/// identifiers in request order until either runs out.
pub open spec fn spec_get_messages(shas: Seq<Seq<char>>, stdout: Seq<char>) -> Seq<
    (Seq<char>, Seq<char>),
> {
    let pieces = drop_trailing_empty(spec_split_seq(spec_trim(stdout), "<MARKER>"@));
    let n = if shas.len() <= pieces.len() {
        shas.len()
    } else {
        pieces.len()
    };
    Seq::new(n as nat, |i: int| (shas[i], escape_angles(spec_trim(pieces[i]))))
}

/// Replaces each angle bracket of `cs` by its entity.
fn escape_chars(cs: &Vec<char>) -> (r: Vec<char>)
    ensures
        r@ == escape_angles(cs@),
{
    let mut r: Vec<char> = Vec::new();
    let mut i: usize = 0;
    proof {
        assert(cs@.take(0) =~= Seq::<char>::empty());
        assert(r@ =~= escape_angles(cs@.take(0)));
    }
    while i < cs.len()
        invariant
            i <= cs@.len(),
            r@ == escape_angles(cs@.take(i as int)),
        decreases cs@.len() - i,
    {
        proof {
            assert(cs@.take(i + 1).drop_last() =~= cs@.take(i as int));
            assert(cs@.take(i + 1).last() == cs@[i as int]);
        }
        let ghost before = r@;
        let c = cs[i];
        if c == '<' {
            r.push('&');
            r.push('l');
            r.push('t');
            r.push(';');
            proof {
                assert(r@ =~= before + seq!['&', 'l', 't', ';']);
            }
        } else if c == '>' {
            r.push('&');
            r.push('g');
            r.push('t');
            r.push(';');
            proof {
                assert(r@ =~= before + seq!['&', 'g', 't', ';']);
            }
        } else {
            r.push(c);
            proof {
                assert(r@ =~= before + seq![cs@[i as int]]);
            }
        }
        i = i + 1;
    }
    proof {
        assert(cs@.take(cs@.len() as int) =~= cs@);
    }
    r
}

/// Pairs the requested commit identifiers with the messages the tool
/// printed for them.
pub fn get_messages(shas: &Vec<String>, stdout: &str) -> (r: Vec<(String, String)>)
    ensures
        r.deep_view() == spec_get_messages(shas.deep_view(), stdout@),
{
    let body = trim_chars(&chars_of(stdout));
    let marker = chars_of("<MARKER>");
    proof {
        reveal_strlit("<MARKER>");
    }
    let mut pieces = split_chars_seq(&body, &marker);
    let ghost raw = pieces.deep_view();
    if pieces.len() > 0 && pieces[pieces.len() - 1].len() == 0 {
        proof {
            assert(raw.last() == pieces@.last().deep_view());
            assert(pieces@.last().deep_view() =~= pieces@.last()@);
        }
        pieces.pop();
        proof {
            assert(pieces.deep_view() =~= raw.drop_last());
        }
    } else {
        proof {
            if raw.len() > 0 {
                assert(raw.last() == pieces@.last().deep_view());
                assert(pieces@.last().deep_view() =~= pieces@.last()@);
            }
        }
    }
    let ghost pv = pieces.deep_view();
    proof {
        assert(pv == drop_trailing_empty(raw));
    }
    let n = if shas.len() <= pieces.len() {
        shas.len()
    } else {
        pieces.len()
    };
    let mut r: Vec<(String, String)> = Vec::new();
    let mut i: usize = 0;
    while i < n
        invariant
            i <= n,
            n <= shas@.len(),
            n <= pieces@.len(),
            pv == pieces.deep_view(),
            pv.len() == pieces@.len(),
            spec_get_messages(shas.deep_view(), stdout@) == Seq::new(
                n as nat,
                |k: int| (shas.deep_view()[k], escape_angles(spec_trim(pv[k]))),
            ),
            r.deep_view() == Seq::new(
                i as nat,
                |k: int| (shas.deep_view()[k], escape_angles(spec_trim(pv[k]))),
            ),
        decreases n - i,
    {
        proof {
            assert(pv[i as int] == pieces@[i as int].deep_view());
            assert(pieces@[i as int].deep_view() =~= pieces@[i as int]@);
            assert(shas.deep_view()[i as int] == shas@[i as int]@);
        }
        let msg = string_of_chars(&escape_chars(&trim_chars(&pieces[i])));
        let ghost old_dv = r.deep_view();
        r.push((shas[i].clone(), msg));
        proof {
            assert(r.deep_view() =~= old_dv.push(
                (shas@[i as int]@, escape_angles(spec_trim(pv[i as int]))),
            ));
            assert(r.deep_view() =~= Seq::new(
                (i + 1) as nat,
                |k: int| (shas.deep_view()[k], escape_angles(spec_trim(pv[k]))),
            ));
        }
        i = i + 1;
    }
    proof {
        assert(r.deep_view() =~= spec_get_messages(shas.deep_view(), stdout@));
    }
    r
}

} // verus!
