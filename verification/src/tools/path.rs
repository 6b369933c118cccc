//! Unix paths as text: their components, and what collapsing `.` and `..`
//! makes of them.

use vstd::prelude::*;

use crate::text::{cat2, cat3, chars_of, join, joined, same, slice_text, starts_with, views};

verus! {

/// Whether a path starts at the root.
pub open spec fn is_absolute_path(p: Seq<char>) -> bool {
    p.len() > 0 && p[0] == '/'
}

/// The length of the part of `p` in front of its first `/`.
pub open spec fn segment_len(p: Seq<char>) -> int
    decreases p.len(),
{
    if p.len() == 0 || p[0] == '/' {
        0
    } else {
        1 + segment_len(p.drop_first())
    }
}

/// What stands between the slashes of a path; nothing between two slashes that
/// touch, and nothing for a `.`.
pub open spec fn segments(p: Seq<char>) -> Seq<Seq<char>>
    decreases p.len(),
{
    if p.len() == 0 {
        seq![]
    } else if p[0] == '/' {
        segments(p.skip(1))
    } else {
        let n = segment_len(p);
        if 0 < n <= p.len() {
            let first = p.take(n);
            if first == "."@ {
                segments(p.skip(n))
            } else {
                seq![first] + segments(p.skip(n))
            }
        } else {
            seq![]
        }
    }
}

/// The components of a path: the root where it is absolute, the `.` that a
/// relative one starts with, and its segments.
pub open spec fn components(p: Seq<char>) -> Seq<Seq<char>> {
    if is_absolute_path(p) {
        seq!["/"@] + segments(p)
    } else if p.take(segment_len(p)) == "."@ {
        seq!["."@] + segments(p)
    } else {
        segments(p)
    }
}

/// Whether the components of `root` are the first components of `p`.
pub open spec fn path_starts_with(p: Seq<char>, root: Seq<char>) -> bool {
    components(root).len() <= components(p).len() && components(p).take(
        components(root).len() as int,
    ) == components(root)
}

/// Segments with every `..` taking away the one before it.
pub open spec fn collapsed(list: Seq<Seq<char>>) -> Seq<Seq<char>>
    decreases list.len(),
{
    if list.len() == 0 {
        seq![]
    } else {
        let front = collapsed(list.drop_last());
        if list.last() == ".."@ {
            if front.len() > 0 {
                front.drop_last()
            } else {
                front
            }
        } else {
            front.push(list.last())
        }
    }
}

/// A path without `.`, `..` and doubled slashes.
pub open spec fn normal_path(p: Seq<char>) -> Seq<char> {
    if is_absolute_path(p) {
        "/"@ + joined(collapsed(segments(p)), "/"@)
    } else {
        joined(collapsed(segments(p)), "/"@)
    }
}

proof fn lemma_segment_len(p: Seq<char>, n: int)
    requires
        0 <= n <= p.len(),
        forall|k: int| 0 <= k < n ==> p[k] != '/',
        n < p.len() ==> p[n] == '/',
    ensures
        segment_len(p) == n,
    decreases n,
{
    if n > 0 {
        let rest = p.drop_first();
        assert forall|k: int| 0 <= k < n - 1 implies rest[k] != '/' by {
            assert(rest[k] == p[k + 1]);
        }
        assert(p[0] != '/');
        if n < p.len() {
            assert(rest[n - 1] == p[n]);
        }
        lemma_segment_len(rest, n - 1);
    }
}

proof fn lemma_segment_len_is(p: Seq<char>)
    ensures
        0 <= segment_len(p) <= p.len(),
        forall|k: int| 0 <= k < segment_len(p) ==> p[k] != '/',
        segment_len(p) < p.len() ==> p[segment_len(p)] == '/',
    decreases p.len(),
{
    if p.len() > 0 && p[0] != '/' {
        let rest = p.drop_first();
        lemma_segment_len_is(rest);
        assert forall|k: int| 0 <= k < segment_len(p) implies p[k] != '/' by {
            if k > 0 {
                assert(rest[k - 1] == p[k]);
            }
        }
        if segment_len(p) < p.len() {
            assert(rest[segment_len(p) - 1] == p[segment_len(p)]);
        }
    }
}

/// Where the part of `p` from `from` on that has no `/` in it ends.
fn segment_end(p: &Vec<char>, from: usize) -> (r: usize)
    requires
        from <= p@.len(),
    ensures
        from <= r <= p@.len(),
        r - from == segment_len(p@.skip(from as int)),
{
    let mut i: usize = from;
    while i < p.len() && p[i] != '/'
        invariant
            from <= i <= p@.len(),
            forall|k: int| from <= k < i ==> p@[k] != '/',
        decreases p@.len() - i,
    {
        i += 1;
    }
    proof {
        let rest = p@.skip(from as int);
        assert forall|k: int| 0 <= k < i - from implies rest[k] != '/' by {
            assert(rest[k] == p@[k + from]);
        }
        if i < p@.len() {
            assert(rest[i - from] == p@[i as int]);
        }
        lemma_segment_len(rest, i - from);
    }
    i
}

/// What stands between the slashes of a path.
pub fn split_segments(path: &str) -> (r: Vec<String>)
    ensures
        views(r@) == segments(path@),
{
    let p = chars_of(path);
    let mut out: Vec<String> = Vec::new();
    let mut i: usize = 0;
    proof {
        assert(p@.skip(0) =~= p@);
        assert(views(out@) =~= Seq::<Seq<char>>::empty());
        assert(Seq::<Seq<char>>::empty() + segments(p@) =~= segments(p@));
    }
    while i < p.len()
        invariant
            0 <= i <= p@.len(),
            p@ == path@,
            views(out@) + segments(p@.skip(i as int)) == segments(p@),
        decreases p@.len() - i,
    {
        let ghost rest = p@.skip(i as int);
        if p[i] == '/' {
            assert(rest.skip(1) =~= p@.skip(i + 1));
            i += 1;
        } else {
            let end = segment_end(&p, i);
            let piece = slice_text(&p, i, end);
            proof {
                lemma_segment_len_is(rest);
                assert(rest.take(end - i) =~= piece@);
                assert(rest.skip(end - i) =~= p@.skip(end as int));
            }
            if !same(&piece, ".") {
                let ghost before = views(out@);
                out.push(piece);
                proof {
                    assert(views(out@) =~= before.push(piece@));
                    assert(before + (seq![piece@] + segments(p@.skip(end as int)))
                        =~= before.push(piece@) + segments(p@.skip(end as int)));
                }
            }
            i = end;
        }
    }
    proof {
        assert(p@.skip(i as int) =~= seq![]);
        assert(views(out@) + Seq::<Seq<char>>::empty() =~= views(out@));
    }
    out
}

/// Whether a path starts at the root.
pub fn is_absolute(path: &str) -> (r: bool)
    ensures
        r == is_absolute_path(path@),
{
    let p = chars_of(path);
    p.len() > 0 && p[0] == '/'
}

/// The components of a path.
pub fn split_components(path: &str) -> (r: Vec<String>)
    ensures
        views(r@) == components(path@),
{
    let p = chars_of(path);
    let mut out: Vec<String> = Vec::new();
    if p.len() > 0 && p[0] == '/' {
        out.push("/".to_owned());
        assert(views(out@) =~= seq!["/"@]);
    } else {
        let end = segment_end(&p, 0);
        assert(p@.skip(0) =~= p@);
        let piece = slice_text(&p, 0, end);
        assert(p@.subrange(0, end as int) =~= p@.take(end as int));
        if same(&piece, ".") {
            out.push(".".to_owned());
            assert(views(out@) =~= seq!["."@]);
        }
    }
    let ghost front = views(out@);
    let mut rest = split_segments(path);
    let ghost back = rest@;
    let ghost head = out@;
    out.append(&mut rest);
    proof {
        assert(views(out@) =~= views(head) + views(back));
        assert(Seq::<Seq<char>>::empty() + segments(path@) =~= segments(path@));
        if front.len() == 0 {
            assert(front =~= Seq::<Seq<char>>::empty());
        }
    }
    out
}

/// Whether the components of `root` are the first components of `path`.
pub fn starts_with_path(path: &str, root: &str) -> (r: bool)
    ensures
        r == path_starts_with(path@, root@),
{
    let a = split_components(path);
    let b = split_components(root);
    if b.len() > a.len() {
        return false;
    }
    let mut i: usize = 0;
    while i < b.len()
        invariant
            0 <= i <= b@.len() <= a@.len(),
            views(a@) == components(path@),
            views(b@) == components(root@),
            forall|k: int| 0 <= k < i ==> (#[trigger] a@[k])@ == b@[k]@,
        decreases b@.len() - i,
    {
        if !same(&a[i], &b[i]) {
            proof {
                if path_starts_with(path@, root@) {
                    assert(components(path@).take(b@.len() as int)[i as int] == components(
                        root@,
                    )[i as int]);
                    assert(views(a@)[i as int] == a@[i as int]@);
                    assert(views(b@)[i as int] == b@[i as int]@);
                }
            }
            return false;
        }
        i += 1;
    }
    proof {
        assert forall|k: int| 0 <= k < b@.len() implies components(path@).take(b@.len() as int)[k]
            == components(root@)[k] by {
            assert(views(a@)[k] == a@[k]@);
            assert(views(b@)[k] == b@[k]@);
        }
        assert(components(path@).take(b@.len() as int) =~= components(root@));
    }
    true
}

/// The segments of a path with its dots collapsed.
fn collapse(path: &str) -> (r: Vec<String>)
    ensures
        views(r@) == collapsed(segments(path@)),
{
    let list = split_segments(path);
    let ghost all = segments(path@);
    let mut kept: Vec<String> = Vec::new();
    let mut i: usize = 0;
    proof {
        assert(views(kept@) =~= Seq::<Seq<char>>::empty());
        assert(all.take(0) =~= seq![]);
    }
    while i < list.len()
        invariant
            0 <= i <= list@.len(),
            views(list@) == all,
            views(kept@) == collapsed(all.take(i as int)),
        decreases list@.len() - i,
    {
        let ghost before = kept@;
        proof {
            assert(all.take(i + 1).drop_last() =~= all.take(i as int));
            assert(all.take(i + 1).last() == list@[i as int]@);
        }
        if same(&list[i], "..") {
            let popped = kept.pop();
            proof {
                if before.len() > 0 {
                    assert(views(kept@) =~= views(before).drop_last());
                } else {
                    assert(views(kept@) =~= views(before));
                }
            }
        } else {
            kept.push(list[i].clone());
            assert(views(kept@) =~= views(before).push(list@[i as int]@));
        }
        i += 1;
    }
    assert(all.take(i as int) =~= all);
    kept
}

/// Collapses `.` and `..` without touching the filesystem.
pub fn lexical_normalize(path: &str) -> (r: String)
    ensures
        r@ == normal_path(path@),
{
    let rest = join(&collapse(path), "/");
    if is_absolute(path) {
        cat2("/", &rest)
    } else {
        rest
    }
}

/// A file of a directory.
pub open spec fn path_in(dir: Seq<char>, name: Seq<char>) -> Seq<char> {
    if dir.len() > 0 && dir.last() != '/' {
        dir + "/"@ + name
    } else {
        dir + name
    }
}

/// A file of a directory.
pub fn join_path(dir: &str, name: &str) -> (r: String)
    ensures
        r@ == path_in(dir@, name@),
{
    let chars = chars_of(dir);
    if chars.len() > 0 && chars[chars.len() - 1] != '/' {
        cat3(dir, "/", name)
    } else {
        cat2(dir, name)
    }
}

/// What stands under `base`, some directories down.
pub open spec fn below(base: Seq<char>, rest: Seq<Seq<char>>) -> Seq<char> {
    if rest.len() == 0 {
        base
    } else {
        path_in(base, joined(rest, "/"@))
    }
}

/// The last `count` segments of a path whose dots are collapsed.
pub open spec fn tail_segments(p: Seq<char>, count: int) -> Seq<Seq<char>> {
    let list = collapsed(segments(p));
    if 0 <= count < list.len() {
        list.skip(list.len() - count)
    } else {
        list
    }
}

/// Puts the last `count` segments of `path`, its dots collapsed, under `base`.
pub fn graft(base: &str, path: &str, count: usize) -> (r: String)
    ensures
        r@ == below(base@, tail_segments(path@, count as int)),
{
    let kept = collapse(path);
    let from: usize = if count < kept.len() {
        kept.len() - count
    } else {
        0
    };
    let mut rest: Vec<String> = Vec::new();
    let mut i: usize = from;
    while i < kept.len()
        invariant
            from <= i <= kept@.len(),
            rest@.len() == i - from,
            forall|k: int| 0 <= k < i - from ==> (#[trigger] rest@[k])@ == kept@[k + from]@,
        decreases kept@.len() - i,
    {
        rest.push(kept[i].clone());
        i += 1;
    }
    assert(views(rest@) =~= tail_segments(path@, count as int));
    if rest.len() == 0 {
        base.to_owned()
    } else {
        join_path(base, &join(&rest, "/"))
    }
}

// ---------------------------------------------------------------------------
// Laws

/// Whether `s` can stand between two slashes: it is not empty, holds none, and
/// is not a `.`.
pub open spec fn is_segment(s: Seq<char>) -> bool {
    &&& s.len() > 0
    &&& forall|k: int| 0 <= k < s.len() ==> s[k] != '/'
    &&& s != "."@
}

/// Whether `s` is a segment that names a file or a directory.
pub open spec fn is_plain_segment(s: Seq<char>) -> bool {
    is_segment(s) && s != ".."@
}

proof fn lemma_segments_shape(p: Seq<char>)
    ensures
        forall|k: int| 0 <= k < segments(p).len() ==> is_segment(#[trigger] segments(p)[k]),
    decreases p.len(),
{
    if p.len() > 0 {
        if p[0] == '/' {
            lemma_segments_shape(p.skip(1));
            assert(segments(p) == segments(p.skip(1)));
        } else {
            lemma_segment_len_is(p);
            let n = segment_len(p);
            assert(n > 0);
            lemma_segments_shape(p.skip(n));
            let rest = segments(p.skip(n));
            assert forall|k: int| 0 <= k < segments(p).len() implies is_segment(
                #[trigger] segments(p)[k],
            ) by {
                if p.take(n) == "."@ {
                    assert(segments(p)[k] == rest[k]);
                } else if k > 0 {
                    assert(segments(p)[k] == rest[k - 1]);
                } else {
                    assert(segments(p)[0] == p.take(n));
                }
            }
        }
    }
}

proof fn lemma_collapsed_shape(list: Seq<Seq<char>>)
    requires
        forall|k: int| 0 <= k < list.len() ==> is_segment(#[trigger] list[k]),
    ensures
        forall|k: int| 0 <= k < collapsed(list).len() ==> is_plain_segment(
            #[trigger] collapsed(list)[k],
        ),
    decreases list.len(),
{
    if list.len() > 0 {
        let front = list.drop_last();
        assert forall|k: int| 0 <= k < front.len() implies is_segment(#[trigger] front[k]) by {
            assert(front[k] == list[k]);
        }
        lemma_collapsed_shape(front);
        assert(is_segment(list[list.len() - 1]));
        assert forall|k: int| 0 <= k < collapsed(list).len() implies is_plain_segment(
            #[trigger] collapsed(list)[k],
        ) by {
            if k < collapsed(front).len() {
                assert(is_plain_segment(collapsed(front)[k]));
            }
        }
    }
}

proof fn lemma_segments_of_piece(s: Seq<char>, rest: Seq<char>)
    requires
        is_plain_segment(s),
        rest.len() == 0 || rest[0] == '/',
    ensures
        segments(s + rest) == seq![s] + segments(rest),
{
    let p = s + rest;
    assert forall|k: int| 0 <= k < s.len() implies p[k] != '/' by {
        assert(p[k] == s[k]);
    }
    if rest.len() > 0 {
        assert(p[s.len() as int] == rest[0]);
    }
    lemma_segment_len(p, s.len() as int);
    assert(p.take(s.len() as int) =~= s);
    assert(p.skip(s.len() as int) =~= rest);
    assert(p[0] == s[0]);
}

/// `list` with a `/` in front of every part.
spec fn slashed(list: Seq<Seq<char>>) -> Seq<char>
    decreases list.len(),
{
    if list.len() == 0 {
        seq![]
    } else {
        "/"@ + list[0] + slashed(list.drop_first())
    }
}

proof fn lemma_slashed_push(list: Seq<Seq<char>>, s: Seq<char>)
    ensures
        slashed(list.push(s)) == slashed(list) + "/"@ + s,
    decreases list.len(),
{
    if list.len() == 0 {
        assert(list.push(s).drop_first() =~= list);
        assert(slashed(list.push(s)) =~= slashed(list) + "/"@ + s);
    } else {
        lemma_slashed_push(list.drop_first(), s);
        assert(list.push(s).drop_first() =~= list.drop_first().push(s));
        assert(slashed(list.push(s)) =~= slashed(list) + "/"@ + s);
    }
}

proof fn lemma_joined_slashed(list: Seq<Seq<char>>)
    requires
        list.len() > 0,
    ensures
        "/"@ + joined(list, "/"@) == slashed(list),
    decreases list.len(),
{
    if list.len() == 1 {
        assert(list.drop_first() =~= seq![]);
        assert(slashed(list.drop_first()) =~= seq![]);
        assert(list.drop_last() =~= seq![]);
        assert(slashed(list) =~= "/"@ + list[0]);
    } else {
        lemma_joined_slashed(list.drop_last());
        lemma_slashed_push(list.drop_last(), list.last());
        assert(list.drop_last().push(list.last()) =~= list);
        assert("/"@ + (joined(list.drop_last(), "/"@) + "/"@ + list.last()) =~= "/"@ + joined(
            list.drop_last(),
            "/"@,
        ) + "/"@ + list.last());
    }
}

proof fn lemma_segments_slashed(list: Seq<Seq<char>>)
    requires
        forall|k: int| 0 <= k < list.len() ==> is_plain_segment(#[trigger] list[k]),
    ensures
        segments(slashed(list)) == list,
    decreases list.len(),
{
    reveal_strlit("/");
    if list.len() > 0 {
        let rest = list.drop_first();
        assert forall|k: int| 0 <= k < rest.len() implies is_plain_segment(#[trigger] rest[k]) by {
            assert(rest[k] == list[k + 1]);
        }
        lemma_segments_slashed(rest);
        let tail = slashed(rest);
        if rest.len() > 0 {
            assert(tail[0] == '/');
        }
        let p = slashed(list);
        assert(p[0] == '/');
        assert(p.skip(1) =~= list[0] + tail);
        assert(is_plain_segment(list[0]));
        lemma_segments_of_piece(list[0], tail);
        assert(seq![list[0]] + rest =~= list);
    }
}

/// A collapsed absolute path has exactly the components that are left: no `.`
/// and no `..` remains in it, so it cannot climb out of a directory that its
/// components start with.
pub proof fn lemma_normal_path_cannot_climb(p: Seq<char>)
    requires
        is_absolute_path(p),
    ensures
        is_absolute_path(normal_path(p)),
        components(normal_path(p)) == seq!["/"@] + collapsed(segments(p)),
        !components(normal_path(p)).contains(".."@),
        !components(normal_path(p)).contains("."@),
{
    reveal_strlit("/");
    reveal_strlit(".");
    reveal_strlit("..");
    lemma_segments_shape(p);
    let list = collapsed(segments(p));
    lemma_collapsed_shape(segments(p));
    let n = normal_path(p);
    if list.len() == 0 {
        assert(list =~= seq![]);
        assert(joined(list, "/"@) =~= seq![]);
        assert(n =~= "/"@);
        assert(n.skip(1) =~= seq![]);
        assert(segments(n.skip(1)) =~= seq![]);
        assert(segments(n) =~= seq![]);
    } else {
        lemma_joined_slashed(list);
        lemma_segments_slashed(list);
    }
    assert(n[0] == '/');
    assert(components(n) =~= seq!["/"@] + list);
    assert forall|k: int| 0 <= k < components(n).len() implies components(n)[k] != ".."@
        && components(n)[k] != "."@ by {
        if k > 0 {
            assert(components(n)[k] == list[k - 1]);
            assert(is_plain_segment(list[k - 1]));
        } else {
            assert("/"@[0] != '.');
        }
    }
}

/// Collapsing a path a second time changes nothing.
pub proof fn lemma_normalising_twice(p: Seq<char>)
    requires
        is_absolute_path(p),
    ensures
        normal_path(normal_path(p)) == normal_path(p),
{
    lemma_normal_path_cannot_climb(p);
    let n = normal_path(p);
    let list = collapsed(segments(p));
    assert(segments(n) =~= list) by {
        assert(components(n) == seq!["/"@] + segments(n));
        assert(components(n).drop_first() =~= segments(n));
        assert((seq!["/"@] + list).drop_first() =~= list);
    }
    lemma_segments_shape(p);
    lemma_collapsed_shape(segments(p));
    lemma_collapsed_plain(list);
}

proof fn lemma_collapsed_plain(list: Seq<Seq<char>>)
    requires
        forall|k: int| 0 <= k < list.len() ==> is_plain_segment(#[trigger] list[k]),
    ensures
        collapsed(list) == list,
    decreases list.len(),
{
    if list.len() > 0 {
        let front = list.drop_last();
        assert forall|k: int| 0 <= k < front.len() implies is_plain_segment(
            #[trigger] front[k],
        ) by {
            assert(front[k] == list[k]);
        }
        lemma_collapsed_plain(front);
        assert(is_plain_segment(list[list.len() - 1]));
        assert(front.push(list.last()) =~= list);
    } else {
        assert(collapsed(list) =~= list);
    }
}

proof fn lemma_segments_append(a: Seq<char>, b: Seq<char>)
    requires
        b.len() == 0 || b[0] == '/',
    ensures
        segments(a + b) == segments(a) + segments(b),
    decreases a.len(),
{
    let p = a + b;
    if a.len() == 0 {
        assert(p =~= b);
        assert(segments(a) + segments(b) =~= segments(b));
    } else if a[0] == '/' {
        assert(p.skip(1) =~= a.skip(1) + b);
        lemma_segments_append(a.skip(1), b);
    } else {
        let n = segment_len(a);
        lemma_segment_len_is(a);
        assert(n > 0);
        assert forall|k: int| 0 <= k < n implies p[k] != '/' by {
            assert(p[k] == a[k]);
        }
        if n < a.len() {
            assert(p[n] == a[n]);
        } else if b.len() > 0 {
            assert(p[n] == b[0]);
        }
        lemma_segment_len(p, n);
        assert(p.take(n) =~= a.take(n));
        assert(p.skip(n) =~= a.skip(n) + b);
        lemma_segments_append(a.skip(n), b);
        let first = a.take(n);
        assert(seq![first] + (segments(a.skip(n)) + segments(b)) =~= (seq![first] + segments(
            a.skip(n),
        )) + segments(b));
    }
}

/// What is put under an absolute directory has the components of the directory
/// and then those that were put under it, among which there is no `..`.
pub proof fn lemma_below(base: Seq<char>, p: Seq<char>, count: int)
    requires
        is_absolute_path(base),
    ensures
        components(below(base, tail_segments(p, count))) == components(base) + tail_segments(
            p,
            count,
        ),
        !tail_segments(p, count).contains(".."@),
{
    reveal_strlit("/");
    lemma_segments_shape(p);
    lemma_collapsed_shape(segments(p));
    let list = collapsed(segments(p));
    let rest = tail_segments(p, count);
    assert forall|k: int| 0 <= k < rest.len() implies is_plain_segment(#[trigger] rest[k]) by {
        if 0 <= count < list.len() {
            assert(rest[k] == list[k + list.len() - count]);
        }
    }
    let path = below(base, rest);
    if rest.len() == 0 {
        assert(components(base) + rest =~= components(base));
    } else {
        lemma_joined_slashed(rest);
        lemma_segments_slashed(rest);
        let tail = slashed(rest);
        assert(tail[0] == '/');
        if base.last() == '/' {
            let front = base.drop_last();
            assert(base =~= front + "/"@);
            lemma_segments_append(front, "/"@);
            assert("/"@.skip(1) =~= seq![]);
            assert(segments("/"@.skip(1)) =~= seq![]);
            assert(segments(front) + segments("/"@) =~= segments(front));
            assert(path =~= front + tail);
            lemma_segments_append(front, tail);
        } else {
            assert(path =~= base + tail);
            lemma_segments_append(base, tail);
        }
        assert(path[0] == '/');
        assert(seq!["/"@] + (segments(base) + rest) =~= (seq!["/"@] + segments(base)) + rest);
    }
}

/// A path is read piece by piece: what stands before a slash and what stands behind it
/// add up, a name is one piece, and empty pieces and dots are none.
pub proof fn lemma_pieces(a: Seq<char>, b: Seq<char>, name: Seq<char>)
    ensures
        segments(a + "/"@ + b) == segments(a) + segments(b),
        segments(seq![]) == Seq::<Seq<char>>::empty(),
        segments("."@) == Seq::<Seq<char>>::empty(),
        name.len() > 0 && name != "."@ && (forall|k: int|
            0 <= k < name.len() ==> #[trigger] name[k] != '/') ==> segments(name) == seq![name],
{
    reveal_strlit("/");
    reveal_strlit(".");
    assert("/"@.len() == 1 && "/"@[0] == '/');
    assert("."@.len() == 1 && "."@[0] == '.');
    let tail = "/"@ + b;
    lemma_segments_append(a, tail);
    assert(a + "/"@ + b =~= a + tail);
    assert(tail.skip(1) =~= b);
    assert(segments(tail) == segments(b));
    lemma_segment_len("."@, 1);
    assert("."@.take(1) =~= "."@);
    assert("."@.skip(1) =~= seq![]);
    assert(segments("."@.skip(1)) =~= seq![]);
    if name.len() > 0 && name != "."@ && (forall|k: int|
        0 <= k < name.len() ==> #[trigger] name[k] != '/') {
        lemma_segment_len(name, name.len() as int);
        assert(name.take(name.len() as int) =~= name);
        assert(name.skip(name.len() as int) =~= seq![]);
        assert(segments(name.skip(name.len() as int)) =~= seq![]);
        assert(segments(name) =~= seq![name]);
    }
}

proof fn lemma_nothing_to_collapse(a: Seq<Seq<char>>)
    requires
        forall|k: int| 0 <= k < a.len() ==> #[trigger] a[k] != ".."@,
    ensures
        collapsed(a) == a,
    decreases a.len(),
{
    if a.len() > 0 {
        let front = a.drop_last();
        assert forall|k: int| 0 <= k < front.len() implies #[trigger] front[k] != ".."@ by {
            assert(front[k] == a[k]);
        }
        lemma_nothing_to_collapse(front);
        assert(a[a.len() - 1] == a.last());
        assert(front.push(a.last()) =~= a);
    } else {
        assert(collapsed(a) =~= a);
    }
}

/// Going into a directory and out of it again leads nowhere else; above the top there
/// is nothing to go out to; and a way that never goes out stays as it is.
pub proof fn lemma_in_and_out(a: Seq<Seq<char>>, name: Seq<char>, b: Seq<Seq<char>>)
    requires
        name != ".."@,
    ensures
        collapsed(a + seq![name, ".."@] + b) == collapsed(a + b),
        collapsed(seq![".."@] + b) == collapsed(b),
        !a.contains(".."@) ==> collapsed(a) == a,
    decreases b.len(),
{
    let whole = a + seq![name, ".."@] + b;
    let top = seq![".."@] + b;
    if b.len() == 0 {
        let inner = a.push(name);
        assert(whole.drop_last() =~= inner);
        assert(inner.drop_last() =~= a);
        assert(collapsed(inner) == collapsed(a).push(name));
        assert(collapsed(a).push(name).drop_last() =~= collapsed(a));
        assert(a + b =~= a);
        assert(top.drop_last() =~= seq![]);
        assert(collapsed(top.drop_last()) =~= seq![]);
        assert(collapsed(top) =~= seq![]);
        assert(collapsed(b) =~= seq![]);
    } else {
        let front = b.drop_last();
        lemma_in_and_out(a, name, front);
        assert(whole.drop_last() =~= a + seq![name, ".."@] + front);
        assert(whole.last() == b.last());
        assert((a + b).drop_last() =~= a + front);
        assert((a + b).last() == b.last());
        assert(top.drop_last() =~= seq![".."@] + front);
        assert(top.last() == b.last());
    }
    if !a.contains(".."@) {
        assert forall|k: int| 0 <= k < a.len() implies #[trigger] a[k] != ".."@ by {
            assert(a.contains(a[k]));
        }
        lemma_nothing_to_collapse(a);
    }
}

/// A path lies under a root exactly where it is the root, or goes on from it by whole
/// names.
pub proof fn lemma_under_a_root(p: Seq<char>, root: Seq<char>)
    ensures
        path_starts_with(p, root) <==> exists|rest: Seq<Seq<char>>|
            components(p) == #[trigger] (components(root) + rest),
{
    let whole = components(p);
    let head = components(root);
    if path_starts_with(p, root) {
        let rest = whole.skip(head.len() as int);
        assert(whole =~= head + rest);
    }
    if exists|rest: Seq<Seq<char>>| whole == #[trigger] (head + rest) {
        let rest = choose|rest: Seq<Seq<char>>| whole == #[trigger] (head + rest);
        assert(whole.take(head.len() as int) =~= head);
    }
}

/// A path in a directory is the directory's, one slash, and the name.
pub proof fn lemma_path_in(dir: Seq<char>, name: Seq<char>)
    requires
        is_absolute_path(dir),
    ensures
        starts_with(path_in(dir, name), dir),
        segments(path_in(dir, name)) == segments(dir) + segments(name),
        components(path_in(dir, name)) == components(dir) + segments(name),
        is_absolute_path(path_in(dir, name)),
{
    reveal_strlit("/");
    assert("/"@.len() == 1 && "/"@[0] == '/');
    let whole = path_in(dir, name);
    assert(whole.subrange(0, dir.len() as int) =~= dir);
    assert(whole[0] == dir[0]);
    if dir.last() != '/' {
        lemma_pieces(dir, name, name);
    } else {
        let base = dir.drop_last();
        assert(base + "/"@ + name =~= whole);
        assert(base + "/"@ + Seq::<char>::empty() =~= dir);
        lemma_pieces(base, name, name);
        lemma_pieces(base, seq![], name);
        assert(segments(base) + Seq::<Seq<char>>::empty() =~= segments(base));
    }
    assert(components(whole) =~= components(dir) + segments(name));
}

/// The last names of a path are as many as are asked for, or all that there are.
pub proof fn lemma_last_names(p: Seq<char>, count: int)
    requires
        0 <= count,
    ensures
        ({
            let all = collapsed(segments(p));
            let last = tail_segments(p, count);
            &&& last.len() == if count < all.len() {
                count
            } else {
                all.len() as int
            }
            &&& all.skip(all.len() - last.len()) == last
        }),
{
    let all = collapsed(segments(p));
    assert(all.skip(0) =~= all);
}

/// A path that is not absolute stays so, and is read as the way that is left of it.
pub proof fn lemma_normalising_a_relative_path(p: Seq<char>)
    requires
        !is_absolute_path(p),
    ensures
        !is_absolute_path(normal_path(p)),
        segments(normal_path(p)) == collapsed(segments(p)),
{
    reveal_strlit("/");
    assert("/"@.len() == 1 && "/"@[0] == '/');
    lemma_segments_shape(p);
    let list = collapsed(segments(p));
    lemma_collapsed_shape(segments(p));
    if list.len() == 0 {
        assert(joined(list, "/"@) =~= seq![]);
        assert(segments(seq![]) =~= seq![]);
        assert(list =~= seq![]);
    } else {
        lemma_joined_slashed(list);
        lemma_segments_slashed(list);
        let whole = slashed(list);
        let text = joined(list, "/"@);
        assert(whole == "/"@ + text);
        assert(whole.skip(1) =~= text);
        assert(segments(whole) == segments(text));
        assert(whole == "/"@ + list[0] + slashed(list.drop_first()));
        assert(text[0] == whole[1]);
        assert(is_plain_segment(list[0]));
        assert(whole[1] == list[0][0]);
    }
}

/// A name is set behind a directory with one slash between them, and with none where
/// there is one already or no directory is given.
pub proof fn lemma_one_slash(dir: Seq<char>, name: Seq<char>)
    ensures
        path_in(seq![], name) == name,
        path_in(dir + seq!['/'], name) == dir + seq!['/'] + name,
        dir.len() > 0 && dir.last() != '/' ==> path_in(dir, name) == dir + seq!['/'] + name,
{
    reveal_strlit("/");
    assert("/"@ =~= seq!['/']);
    assert(Seq::<char>::empty() + name =~= name);
    assert((dir + seq!['/']).last() == '/');
}

} // verus!
