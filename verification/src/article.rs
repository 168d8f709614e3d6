//! Article metadata, and the extraction of the TOML frontmatter block
//! from an article's lines.
//!
//! An article starts with a frontmatter block fenced by `+++` lines; the
//! text between the first fence and the next one is the frontmatter.
//! Reading the article file and decoding the frontmatter's TOML are the
//! caller's business; the extraction of the fenced block is verified here.

use vstd::prelude::*;
use vstd::string::StrSliceExecFns;
use vstd::string::StringExecFns;

verus! {

/// What the image generator needs to know about one article: where the
/// output image goes, the title to draw, and the article's tags.
pub struct ArticleInformation {
    pub image_path: String,
    pub title: String,
    pub tags: Vec<String>,
}

/// A frontmatter fence: a line that starts with `+++`.
pub open spec fn is_fence(l: Seq<char>) -> bool {
    l.len() >= 3 && l[0] == '+' && l[1] == '+' && l[2] == '+'
}

/// Drop leading lines until the first fence.
pub open spec fn drop_until_fence(ls: Seq<Seq<char>>) -> Seq<Seq<char>>
    decreases ls.len(),
{
    if ls.len() == 0 {
        Seq::empty()
    } else if is_fence(ls[0]) {
        ls
    } else {
        drop_until_fence(ls.drop_first())
    }
}

/// Drop the leading run of fence lines.
pub open spec fn drop_fences(ls: Seq<Seq<char>>) -> Seq<Seq<char>>
    decreases ls.len(),
{
    if ls.len() == 0 {
        Seq::empty()
    } else if is_fence(ls[0]) {
        drop_fences(ls.drop_first())
    } else {
        ls
    }
}

/// Take lines up to (excluding) the next fence.
pub open spec fn take_until_fence(ls: Seq<Seq<char>>) -> Seq<Seq<char>>
    decreases ls.len(),
{
    if ls.len() == 0 {
        Seq::empty()
    } else if is_fence(ls[0]) {
        Seq::empty()
    } else {
        seq![ls[0]] + take_until_fence(ls.drop_first())
    }
}

/// The frontmatter block: the lines strictly between the first fence run
/// and the fence that closes it.
pub open spec fn frontmatter_lines(ls: Seq<Seq<char>>) -> Seq<Seq<char>> {
    take_until_fence(drop_fences(drop_until_fence(ls)))
}

/// The lines joined with a single newline between each pair.
pub open spec fn join_lines(ls: Seq<Seq<char>>) -> Seq<char>
    decreases ls.len(),
{
    if ls.len() == 0 {
        Seq::empty()
    } else if ls.len() == 1 {
        ls[0]
    } else {
        join_lines(ls.drop_last()) + seq!['\n'] + ls.last()
    }
}

/// The frontmatter of `ls`, as one newline-joined text.
pub open spec fn spec_frontmatter(ls: Seq<Seq<char>>) -> Seq<char> {
    join_lines(frontmatter_lines(ls))
}

pub open spec fn lines_view(ls: Seq<String>) -> Seq<Seq<char>> {
    Seq::new(ls.len(), |i: int| ls[i]@)
}

fn line_is_fence(s: &String) -> (r: bool)
    ensures
        r == is_fence(s@),
{
    let sl = s.as_str();
    if sl.unicode_len() < 3 {
        false
    } else {
        sl.get_char(0) == '+' && sl.get_char(1) == '+' && sl.get_char(2) == '+'
    }
}

/// Extract the frontmatter block of an article given as its lines.
pub fn extract_frontmatter(lines: &Vec<String>) -> (r: String)
    ensures
        r@ == spec_frontmatter(lines_view(lines@)),
{
    let ghost lv = lines_view(lines@);
    let n = lines.len();
    let mut i: usize = 0;
    proof {
        assert(lv.skip(0) =~= lv);
    }
    while i < n && !line_is_fence(&lines[i])
        invariant
            n == lines@.len(),
            lv == lines_view(lines@),
            i <= n,
            drop_until_fence(lv) == drop_until_fence(lv.skip(i as int)),
            i < n ==> lv.skip(i as int)[0] == lines@[i as int]@,
        decreases n - i,
    {
        proof {
            assert(lv.skip(i as int).drop_first() =~= lv.skip(i + 1));
        }
        i = i + 1;
    }
    proof {
        if i == n {
            assert(lv.skip(i as int) =~= Seq::<Seq<char>>::empty());
        }
        assert(drop_until_fence(lv) == lv.skip(i as int));
    }
    let ghost after_first = drop_until_fence(lv);
    while i < n && line_is_fence(&lines[i])
        invariant
            n == lines@.len(),
            lv == lines_view(lines@),
            i <= n,
            after_first == drop_until_fence(lv),
            drop_fences(after_first) == drop_fences(lv.skip(i as int)),
        decreases n - i,
    {
        proof {
            assert(lv.skip(i as int)[0] == lines@[i as int]@);
            assert(lv.skip(i as int).drop_first() =~= lv.skip(i + 1));
        }
        i = i + 1;
    }
    proof {
        if i == n {
            assert(lv.skip(i as int) =~= Seq::<Seq<char>>::empty());
        } else {
            assert(lv.skip(i as int)[0] == lines@[i as int]@);
        }
        assert(drop_fences(after_first) == lv.skip(i as int));
    }
    let ghost rest = drop_fences(after_first);
    let ghost body_target = take_until_fence(rest);
    let mut out = String::new();
    let ghost mut body: Seq<Seq<char>> = Seq::empty();
    let mut first = true;
    while i < n && !line_is_fence(&lines[i])
        invariant
            n == lines@.len(),
            lv == lines_view(lines@),
            i <= n,
            rest == drop_fences(drop_until_fence(lv)),
            body_target == take_until_fence(rest),
            body_target == body + take_until_fence(lv.skip(i as int)),
            out@ == join_lines(body),
            first <==> body.len() == 0,
        decreases n - i,
    {
        let ghost l = lines@[i as int]@;
        proof {
            assert(lv.skip(i as int)[0] == l);
            assert(lv.skip(i as int).drop_first() =~= lv.skip(i + 1));
            assert(take_until_fence(lv.skip(i as int)) == seq![l] + take_until_fence(
                lv.skip(i + 1),
            ));
        }
        if !first {
            out.append("\n");
            proof {
                reveal_strlit("\n");
                assert("\n"@ =~= seq!['\n']);
            }
        }
        out.append(lines[i].as_str());
        first = false;
        proof {
            let body2 = body.push(l);
            assert(body2.drop_last() =~= body);
            assert(body2.last() == l);
            if body.len() == 0 {
                assert(out@ =~= l);
                assert(join_lines(body2) == l);
            } else {
                assert(out@ =~= join_lines(body) + seq!['\n'] + l);
            }
            assert(body_target =~= body2 + take_until_fence(lv.skip(i + 1)));
        }
        proof {
            body = body.push(l);
        }
        i = i + 1;
    }
    proof {
        if i == n {
            assert(lv.skip(i as int) =~= Seq::<Seq<char>>::empty());
        } else {
            assert(lv.skip(i as int)[0] == lines@[i as int]@);
        }
        assert(take_until_fence(lv.skip(i as int)) =~= Seq::<Seq<char>>::empty());
        assert(body =~= body_target);
    }
    out
}

} // verus!
