//! Module paths: an ordered list of segments with an absolute/relative flag.

use vstd::prelude::*;

verus! {

/// One segment of a module path.
#[derive(Debug)]
pub struct PathSegment(pub String);

/// A module path. `absolute` paths are resolved from the root scope.
#[derive(Debug)]
pub struct Path {
    pub absolute: bool,
    pub segments: Vec<PathSegment>,
}

/// The mathematical value of a path.
pub struct PathView {
    pub absolute: bool,
    pub segments: Seq<Seq<char>>,
}

impl View for PathSegment {
    type V = Seq<char>;

    open spec fn view(&self) -> Seq<char> {
        self.0@
    }
}

impl Clone for PathSegment {
    fn clone(&self) -> (copy: Self)
        ensures
            copy == *self,
    {
        PathSegment(self.0.clone())
    }
}

impl View for Path {
    type V = PathView;

    open spec fn view(&self) -> PathView {
        PathView {
            absolute: self.absolute,
            segments: Seq::new(self.segments@.len(), |i: int| self.segments@[i]@),
        }
    }
}

impl Clone for Path {
    fn clone(&self) -> (copy: Self)
        ensures
            copy@ == self@,
    {
        let mut segments: Vec<PathSegment> = Vec::new();
        let mut i: usize = 0;
        while i < self.segments.len()
            invariant
                i <= self.segments.len(),
                segments@.len() == i,
                forall|j: int| 0 <= j < i ==> segments@[j] == self.segments@[j],
            decreases self.segments.len() - i,
        {
            segments.push(self.segments[i].clone());
            i += 1;
        }
        let copy = Path { absolute: self.absolute, segments };
        assert(copy@.segments =~= self@.segments);
        copy
    }
}

/// The number of characters of `text` before its first dot; its length
/// where it has no dot.
pub open spec fn first_dot(text: Seq<char>) -> int
    decreases text.len(),
{
    if text.len() == 0 || text[0] == '.' {
        0
    } else {
        1 + first_dot(text.drop_first())
    }
}

/// The pieces of `text` between its dots, in order, the empty ones left
/// out.
pub open spec fn dotted(text: Seq<char>) -> Seq<Seq<char>>
    decreases text.len(),
{
    if text.len() == 0 {
        Seq::empty()
    } else {
        let cut = first_dot(text);
        let rest = if 0 <= cut < text.len() {
            dotted(text.skip(cut + 1))
        } else {
            Seq::empty()
        };
        if cut == 0 {
            rest
        } else {
            seq![text.take(cut)] + rest
        }
    }
}

/// Where the first `count` characters hold no dot, the first dot does not
/// come before them; it comes right behind them if a dot or the end does.
proof fn lemma_first_dot(text: Seq<char>, count: int)
    requires
        0 <= count <= text.len(),
        forall|j: int| 0 <= j < count ==> text[j] != '.',
    ensures
        count <= first_dot(text) <= text.len(),
        count == text.len() || text[count] == '.' ==> first_dot(text) == count,
    decreases text.len(),
{
    if text.len() > 0 && text[0] != '.' {
        let rest = text.drop_first();
        if count > 0 {
            assert forall|j: int| 0 <= j < count - 1 implies rest[j] != '.' by {
                assert(rest[j] == text[j + 1]);
            }
            lemma_first_dot(rest, count - 1);
        } else {
            lemma_first_dot(rest, 0);
        }
    }
}

impl Path {
    /// The relative path that a dotted name spells: its segments are the
    /// pieces of `text` between the dots, the empty ones left out.
    pub fn parse(text: &str) -> (path: Path)
        ensures
            path@ == (PathView { absolute: false, segments: dotted(text@) }),
    {
        let n = text.unicode_len();
        let mut segments: Vec<PathSegment> = Vec::new();
        let mut start: usize = 0;
        let mut i: usize = 0;
        let ghost whole = text@;
        assert(whole.skip(0) =~= whole);
        while i < n
            invariant
                start <= i <= n,
                n == whole.len(),
                whole == text@,
                forall|j: int| start <= j < i ==> whole[j] != '.',
                Seq::new(segments@.len(), |k: int| segments@[k]@) + dotted(whole.skip(start as int))
                    == dotted(whole),
            decreases n - i,
        {
            if text.get_char(i) == '.' {
                let ghost tail = whole.skip(start as int);
                let ghost done = Seq::new(segments@.len(), |k: int| segments@[k]@);
                proof {
                    assert forall|j: int| 0 <= j < i - start implies tail[j] != '.' by {
                        assert(tail[j] == whole[start + j]);
                    }
                    lemma_first_dot(tail, i - start);
                    assert(tail.skip(i - start + 1) =~= whole.skip(i as int + 1));
                    assert(tail.take(i - start) =~= whole.subrange(start as int, i as int));
                }
                if start < i {
                    segments.push(PathSegment(text.substring_char(start, i).to_owned()));
                    assert(Seq::new(segments@.len(), |k: int| segments@[k]@) =~= done + seq![
                        whole.subrange(start as int, i as int),
                    ]);
                }
                start = i + 1;
                assert(Seq::new(segments@.len(), |k: int| segments@[k]@) + dotted(
                    whole.skip(start as int),
                ) =~= dotted(whole));
            }
            i += 1;
        }
        proof {
            let tail = whole.skip(start as int);
            assert forall|j: int| 0 <= j < n - start implies tail[j] != '.' by {
                assert(tail[j] == whole[start + j]);
            }
            lemma_first_dot(tail, n - start);
            assert(tail.take(n - start) =~= whole.subrange(start as int, n as int));
        }
        if start < n {
            let ghost done = Seq::new(segments@.len(), |k: int| segments@[k]@);
            segments.push(PathSegment(text.substring_char(start, n).to_owned()));
            assert(Seq::new(segments@.len(), |k: int| segments@[k]@) =~= done + seq![
                whole.subrange(start as int, n as int),
            ]);
        }
        let path = Path { absolute: false, segments };
        assert(path@.segments =~= dotted(whole));
        path
    }

    /// The path of the root scope: absolute, with no segments.
    pub fn root() -> (path: Path)
        ensures
            path@ == (PathView { absolute: true, segments: Seq::empty() }),
    {
        let path = Path { absolute: true, segments: Vec::new() };
        assert(path@.segments =~= Seq::empty());
        path
    }

    /// A new path with `part` appended; `self` is left as it was.
    pub fn extend(&self, part: PathSegment) -> (path: Path)
        ensures
            path@ == (PathView {
                absolute: self@.absolute,
                segments: self@.segments.push(part@),
            }),
    {
        let mut path = self.clone();
        path.segments.push(part);
        assert(path@.segments =~= self@.segments.push(part@));
        path
    }
}

} // verus!
