//! Reading a slash-separated path as a sequence of components.

use vstd::prelude::*;
use crate::text::{chars_of, string_of};

verus! {

/// Whether a path begins at the root.
pub open spec fn is_absolute(path: Seq<char>) -> bool {
    path.len() > 0 && path[0] == '/'
}

/// The stretches of `path` between its slashes, empty ones included. A path
/// without a slash is one stretch.
pub open spec fn split_slash(path: Seq<char>) -> Seq<Seq<char>>
    decreases path.len(),
{
    if path.len() == 0 {
        seq![Seq::empty()]
    } else {
        let before = split_slash(path.drop_last());
        if path.last() == '/' {
            before.push(Seq::empty())
        } else {
            before.drop_last().push(before.last().push(path.last()))
        }
    }
}

/// Whether a stretch between slashes names something: it is neither empty
/// nor the single dot that stands for "here".
pub open spec fn is_name(segment: Seq<char>) -> bool {
    segment.len() > 0 && segment != seq!['.']
}

/// Those of `segments` that name something, in order.
pub open spec fn names_of(segments: Seq<Seq<char>>) -> Seq<Seq<char>>
    decreases segments.len(),
{
    if segments.len() == 0 {
        Seq::empty()
    } else if is_name(segments.last()) {
        names_of(segments.drop_last()).push(segments.last())
    } else {
        names_of(segments.drop_last())
    }
}

/// The components of `path` below the root: what stands between its
/// slashes, without empty stretches and single dots.
pub open spec fn components(path: Seq<char>) -> Seq<Seq<char>> {
    names_of(split_slash(path))
}

/// `base` extended by one path component: an absolute `name` replaces the
/// path, otherwise it is appended, after a `/` unless `base` is empty or
/// already ends in one.
pub open spec fn joined(base: Seq<char>, name: Seq<char>) -> Seq<char> {
    if name.len() > 0 && name[0] == '/' {
        name
    } else if base.len() == 0 || base.last() == '/' {
        base + name
    } else {
        base.push('/') + name
    }
}

/// The path made of `names`, first component first.
pub open spec fn join_path(names: Seq<Seq<char>>) -> Seq<char>
    decreases names.len(),
{
    if names.len() == 0 {
        Seq::empty()
    } else {
        joined(join_path(names.drop_last()), names.last())
    }
}

/// Extends the path in `base` by the component `name`, as `joined` says.
pub fn push_component(base: &mut String, name: &str)
    ensures
        final(base)@ == joined(old(base)@, name@),
{
    let name_len: usize = name.unicode_len();
    if name_len > 0 && name.get_char(0) == '/' {
        *base = name.to_owned();
        return ;
    }
    let base_len: usize = base.as_str().unicode_len();
    if base_len > 0 && base.as_str().get_char(base_len - 1) != '/' {
        base.append("/");
        proof {
            reveal_strlit("/");
            assert(base@ =~= old(base)@.push('/'));
        }
    }
    base.append(name);
}

/// The character sequences of a sequence of strings.
pub open spec fn views(strings: Seq<String>) -> Seq<Seq<char>> {
    Seq::new(strings.len(), |i: int| strings[i]@)
}

/// A path always has at least one stretch.
pub proof fn lemma_split_nonempty(path: Seq<char>)
    ensures
        split_slash(path).len() >= 1,
    decreases path.len(),
{
    if path.len() > 0 {
        lemma_split_nonempty(path.drop_last());
    }
}

/// Whether `path` begins at the root.
pub fn starts_at_root(path: &str) -> (r: bool)
    ensures
        r == is_absolute(path@),
{
    path.unicode_len() > 0 && path.get_char(0) == '/'
}

/// Splits `path` into its components below the root.
pub fn split_components(path: &str) -> (r: Vec<String>)
    ensures
        views(r@) == components(path@),
{
    let chars: Vec<char> = chars_of(path);
    let mut out: Vec<String> = Vec::new();
    let mut cur: Vec<char> = Vec::new();
    let mut i: usize = 0;
    proof {
        assert(path@.take(0) =~= Seq::<char>::empty());
        assert(split_slash(path@.take(0)).drop_last() =~= Seq::<Seq<char>>::empty());
        assert(views(out@) =~= Seq::<Seq<char>>::empty());
    }
    while i < chars.len()
        invariant
            i <= chars@.len(),
            chars@ == path@,
            views(out@) == names_of(split_slash(path@.take(i as int)).drop_last()),
            cur@ == split_slash(path@.take(i as int)).last(),
        decreases chars@.len() - i,
    {
        let c: char = chars[i];
        let ghost before = split_slash(path@.take(i as int));
        proof {
            lemma_split_nonempty(path@.take(i as int));
            assert(path@.take(i as int + 1).drop_last() =~= path@.take(i as int));
            assert(path@.take(i as int + 1).last() == c);
        }
        if c == '/' {
            proof {
                assert(before.push(Seq::empty()).drop_last() =~= before);
            }
            flush(&mut out, &cur);
            cur = Vec::new();
        } else {
            proof {
                assert(before.drop_last().push(before.last().push(c)).drop_last()
                    =~= before.drop_last());
            }
            cur.push(c);
        }
        i = i + 1;
    }
    proof {
        assert(path@.take(chars@.len() as int) =~= path@);
        lemma_split_nonempty(path@);
    }
    flush(&mut out, &cur);
    out
}

/// Appends `segment` to `out` if it names something.
fn flush(out: &mut Vec<String>, segment: &Vec<char>)
    ensures
        is_name(segment@) ==> views(final(out)@) == views(old(out)@).push(segment@),
        !is_name(segment@) ==> views(final(out)@) == views(old(out)@),
{
    let dot: bool = segment.len() == 1 && segment[0] == '.';
    proof {
        if dot {
            assert(segment@ =~= seq!['.']);
        }
    }
    if segment.len() > 0 && !dot {
        out.push(string_of(segment));
        assert(views(out@) =~= views(old(out)@).push(segment@));
    }
}

/// Whether `name` can stand as one component of a path: it names something
/// and holds no slash.
pub open spec fn plain_name(name: Seq<char>) -> bool {
    is_name(name) && forall|i: int| 0 <= i < name.len() ==> name[i] != '/'
}

/// Characters without a slash, appended to a path, lengthen its last
/// stretch.
pub proof fn lemma_split_append(path: Seq<char>, more: Seq<char>)
    requires
        forall|i: int| 0 <= i < more.len() ==> more[i] != '/',
    ensures
        split_slash(path + more) == split_slash(path).drop_last().push(
            split_slash(path).last() + more,
        ),
    decreases more.len(),
{
    lemma_split_nonempty(path);
    let whole = split_slash(path);
    if more.len() == 0 {
        assert(path + more =~= path);
        assert(whole.last() + more =~= whole.last());
        assert(whole.drop_last().push(whole.last()) =~= whole);
    } else {
        let shorter = more.drop_last();
        lemma_split_append(path, shorter);
        assert((path + more).drop_last() =~= path + shorter);
        assert((path + more).last() == more.last());
        let before = split_slash(path + shorter);
        assert(before.drop_last() =~= whole.drop_last());
        assert(before.last().push(more.last()) =~= whole.last() + more);
    }
}

/// The path of the root has two empty stretches, one on each side of its
/// slash, and so no components.
pub proof fn lemma_split_root()
    ensures
        split_slash(seq!['/']) == seq![Seq::<char>::empty(), Seq::<char>::empty()],
        names_of(seq![Seq::<char>::empty()]) == Seq::<Seq<char>>::empty(),
        components(seq!['/']) == Seq::<Seq<char>>::empty(),
{
    let none = Seq::<char>::empty();
    let root = seq!['/'];
    assert(split_slash(none) == seq![none]);
    assert(root.drop_last() =~= none);
    assert(split_slash(root) =~= seq![none, none]);
    let one = seq![none];
    assert(one.drop_last() =~= Seq::<Seq<char>>::empty());
    assert(names_of(one.drop_last()) == Seq::<Seq<char>>::empty());
    assert(names_of(one) == Seq::<Seq<char>>::empty());
    let two = seq![none, none];
    assert(two.drop_last() =~= one);
    assert(names_of(two) == Seq::<Seq<char>>::empty());
}

/// Reading a path that was joined from the root's name and plain names
/// gives those names back.
pub proof fn lemma_components_joined(names: Seq<Seq<char>>)
    requires
        names.len() >= 1,
        names[0] == seq!['/'],
        forall|k: int| 1 <= k < names.len() ==> plain_name(#[trigger] names[k]),
    ensures
        is_absolute(join_path(names)),
        components(join_path(names)) == names.skip(1),
        names.len() > 1 ==> join_path(names).last() != '/',
    decreases names.len(),
{
    let none = Seq::<char>::empty();
    lemma_split_root();
    if names.len() == 1 {
        assert(names.drop_last() =~= Seq::<Seq<char>>::empty());
        assert(join_path(names.drop_last()) == none);
        assert(join_path(names) == seq!['/']);
        assert(names.skip(1) =~= Seq::<Seq<char>>::empty());
    } else {
        let prev = names.drop_last();
        let name = names.last();
        assert(plain_name(name));
        assert forall|k: int| 1 <= k < prev.len() implies plain_name(#[trigger] prev[k]) by {
            assert(prev[k] == names[k]);
        }
        lemma_components_joined(prev);
        let base = join_path(prev);
        let whole = join_path(names);
        lemma_split_nonempty(base);
        if base.last() == '/' {
            // Only the root's own path ends in a slash.
            assert(prev.len() == 1);
            assert(prev.drop_last() =~= Seq::<Seq<char>>::empty());
            assert(join_path(prev.drop_last()) == none);
            assert(base == seq!['/']);
            assert(whole == base + name);
            lemma_split_append(base, name);
            let segs = split_slash(whole);
            assert(split_slash(base).drop_last() =~= seq![none]);
            assert(none + name =~= name);
            assert(segs == seq![none].push(name));
            assert(segs.drop_last() =~= seq![none]);
            assert(components(whole) =~= names.skip(1));
        } else {
            let opened = base.push('/');
            assert(whole == opened + name);
            assert(opened.drop_last() =~= base);
            assert(split_slash(opened) == split_slash(base).push(none));
            lemma_split_append(opened, name);
            let segs = split_slash(whole);
            assert(split_slash(base).push(none).drop_last() =~= split_slash(base));
            assert(none + name =~= name);
            assert(segs == split_slash(base).push(name));
            assert(segs.drop_last() =~= split_slash(base));
            assert(components(whole) == components(base).push(name));
            assert(components(whole) =~= names.skip(1));
        }
        assert(whole[0] == '/');
    }
}

} // verus!
