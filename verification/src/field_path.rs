//! Paths that name a location in a value tree.

use vstd::prelude::*;

verus! {

/// The segments of a path as plain text, one entry per field name.
pub open spec fn segments_view(segments: Seq<String>) -> Seq<Seq<char>> {
    segments.map_values(|s: String| s@)
}

/// The segments of `path` written with a dot between neighbours. Segments are
/// copied as they are: a dot inside a segment is not marked.
pub open spec fn dotted(path: Seq<Seq<char>>) -> Seq<char>
    decreases path.len(),
{
    if path.len() == 0 {
        Seq::empty()
    } else if path.len() == 1 {
        path[0]
    } else {
        dotted(path.drop_last()) + seq!['.'] + path.last()
    }
}

/// A field path: the sequence of field names that leads from the root of a
/// value tree to one location. Two paths are the same when their segments
/// are the same, one by one.
#[derive(Debug, Clone, PartialEq, Eq, Hash)]
pub struct FieldPath(Vec<String>);

impl View for FieldPath {
    type V = Seq<Seq<char>>;

    closed spec fn view(&self) -> Seq<Seq<char>> {
        segments_view(self.0@)
    }
}

impl FieldPath {
    /// Creates the empty path, which names the root.
    pub fn new() -> (path: Self)
        ensures
            path@ == Seq::<Seq<char>>::empty(),
    {
        let path = FieldPath(Vec::new());
        assert(path@ =~= Seq::<Seq<char>>::empty());
        path
    }

    /// Creates a path from its segments.
    pub fn from_vec(segments: Vec<String>) -> (path: Self)
        ensures
            path@ == segments_view(segments@),
    {
        FieldPath(segments)
    }

    /// Appends a segment to the end of this path.
    pub fn push(&mut self, segment: String)
        ensures
            final(self)@ == old(self)@.push(segment@),
    {
        self.0.push(segment);
        assert(self@ =~= old(self)@.push(segment@));
    }

    /// Creates a copy of this path.
    pub fn duplicate(&self) -> (path: Self)
        ensures
            path@ == self@,
    {
        let mut segments: Vec<String> = Vec::new();
        let mut i: usize = 0;
        while i < self.0.len()
            invariant
                i <= self.0.len(),
                segments.len() == i,
                segments_view(segments@) == self@.take(i as int),
            decreases self.0.len() - i,
        {
            let ghost before = segments@;
            let copy = self.0[i].clone();
            segments.push(copy);
            proof {
                assert forall|j: int| 0 <= j < i + 1 implies segments_view(segments@)[j]
                    == self@.take(i + 1)[j] by {
                    if j < i {
                        assert(segments@[j] == before[j]);
                        assert(segments_view(before)[j] == self@.take(i as int)[j]);
                    }
                }
                assert(segments_view(segments@) =~= self@.take(i + 1));
            }
            i = i + 1;
        }
        assert(self@.take(self.0.len() as int) =~= self@);
        FieldPath(segments)
    }

    /// Creates a new path by appending a segment to a copy of this path.
    pub fn child(&self, segment: String) -> (path: Self)
        ensures
            path@ == self@.push(segment@),
    {
        let mut path = self.duplicate();
        path.push(segment);
        path
    }

    /// Returns the number of segments in this path.
    pub fn len(&self) -> (n: usize)
        ensures
            n == self@.len(),
    {
        self.0.len()
    }

    /// Checks whether the segments of `other` are the first segments of this
    /// path.
    pub fn starts_with(&self, other: &FieldPath) -> (r: bool)
        ensures
            r == other@.is_prefix_of(self@),
    {
        if other.0.len() > self.0.len() {
            return false;
        }
        let mut i: usize = 0;
        while i < other.0.len()
            invariant
                i <= other.0.len() <= self.0.len(),
                forall|j: int| 0 <= j < i ==> self@[j] == other@[j],
            decreases other.0.len() - i,
        {
            if self.0[i] != other.0[i] {
                assert(self@[i as int] != other@[i as int]);
                return false;
            }
            i = i + 1;
        }
        assert(self@.subrange(0, other@.len() as int) =~= other@);
        true
    }

    /// Checks whether this path and `other` have the same segments.
    pub fn equals(&self, other: &FieldPath) -> (r: bool)
        ensures
            r == (self@ == other@),
    {
        if other.0.len() != self.0.len() {
            assert(self@.len() != other@.len());
            return false;
        }
        let r = self.starts_with(other);
        assert(r ==> self@ =~= other@);
        r
    }

    /// Returns the segment at the given index, if the path is that long.
    pub fn get(&self, index: usize) -> (segment: Option<&String>)
        ensures
            index < self@.len() ==> segment.is_some() && segment.unwrap()@ == self@[index as int],
            index >= self@.len() ==> segment.is_none(),
    {
        if index < self.0.len() {
            Some(&self.0[index])
        } else {
            None
        }
    }

    /// Converts this path to its dotted form.
    pub fn as_dotted_key(&self) -> (key: String)
        ensures
            key@ == dotted(self@),
    {
        let mut key = String::new();
        let mut i: usize = 0;
        while i < self.0.len()
            invariant
                i <= self.0.len(),
                key@ == dotted(self@.take(i as int)),
            decreases self.0.len() - i,
        {
            if i > 0 {
                crate::text::push_char(&mut key, '.');
            }
            key.append(self.0[i].as_str());
            proof {
                let next = self@.take(i + 1);
                assert(next.drop_last() =~= self@.take(i as int));
                assert(next.last() == self@[i as int]);
                if i > 0 {
                    assert(key@ =~= dotted(next.drop_last()) + seq!['.'] + next.last());
                } else {
                    assert(key@ =~= next[0]);
                }
            }
            i = i + 1;
        }
        assert(self@.take(self.0.len() as int) =~= self@);
        key
    }
}

} // verus!
