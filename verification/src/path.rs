//! Paths as sequences of components.
//!
//! A path is held the way it is walked: one entry per component, the root
//! directory being the component `/` in first place. Two spellings of one
//! location (`a//b/`, `a/./b`) give one value, so equality, prefixes and
//! rebasing are plain sequence arithmetic.

use vstd::prelude::*;

verus! {

/// `String::push` appends one character to the end of the string.
pub assume_specification[ String::push ](s: &mut String, ch: char)
    ensures
        final(s)@ == old(s)@.push(ch),
;

/// The component that stands for the root directory.
pub open spec fn root_part() -> Seq<char> {
    seq!['/']
}

/// The component that stands for the current directory.
pub open spec fn dot_part() -> Seq<char> {
    seq!['.']
}

/// The component that stands for the parent directory.
pub open spec fn dotdot_part() -> Seq<char> {
    seq!['.', '.']
}

/// A path is absolute when its first component is the root.
pub open spec fn is_absolute_path(p: Seq<Seq<char>>) -> bool {
    p.len() > 0 && p[0] == root_part()
}

/// What is appended when `other` is pushed onto a path that already has
/// components: a leading `.` says nothing there and is left out.
pub open spec fn appended_parts(other: Seq<Seq<char>>) -> Seq<Seq<char>> {
    if other.len() > 0 && other[0] == dot_part() {
        other.skip(1)
    } else {
        other
    }
}

/// `base` extended by `other`: an absolute `other` replaces `base`, a relative
/// one is appended to it.
pub open spec fn pushed(base: Seq<Seq<char>>, other: Seq<Seq<char>>) -> Seq<Seq<char>> {
    if is_absolute_path(other) || base.len() == 0 {
        other
    } else {
        base + appended_parts(other)
    }
}

/// A path has a parent unless it is empty or ends in the root.
pub open spec fn has_parent(p: Seq<Seq<char>>) -> bool {
    p.len() > 0 && p.last() != root_part()
}

/// The path without its last component, where it has a parent; else unchanged.
pub open spec fn popped(p: Seq<Seq<char>>) -> Seq<Seq<char>> {
    if has_parent(p) {
        p.drop_last()
    } else {
        p
    }
}

/// A component that names a file or directory: not the root, `.` or `..`.
pub open spec fn is_normal_part(part: Seq<char>) -> bool {
    part != root_part() && part != dot_part() && part != dotdot_part()
}

/// The final component, if it names a file or directory.
pub open spec fn name_of(p: Seq<Seq<char>>) -> Option<Seq<char>> {
    if p.len() > 0 && is_normal_part(p.last()) {
        Some(p.last())
    } else {
        None
    }
}

/// Index of the last `.` in `name`, or -1 if it has none.
pub open spec fn last_dot(name: Seq<char>) -> int
    decreases name.len(),
{
    if name.len() == 0 {
        -1
    } else if name.last() == '.' {
        name.len() - 1
    } else {
        last_dot(name.drop_last())
    }
}

/// A file name without its last extension. A name without a dot, or whose only
/// dot comes first, is its own stem.
pub open spec fn stem_of(name: Seq<char>) -> Seq<char> {
    if last_dot(name) <= 0 {
        name
    } else {
        name.take(last_dot(name))
    }
}

/// The stem of the final component, if it names a file or directory.
pub open spec fn stem_of_path(p: Seq<Seq<char>>) -> Option<Seq<char>> {
    match name_of(p) {
        Some(name) => Some(stem_of(name)),
        None => None,
    }
}

/// Number of leading components that two paths share.
pub open spec fn common_prefix_len(a: Seq<Seq<char>>, b: Seq<Seq<char>>) -> nat
    decreases a.len(),
{
    if a.len() == 0 || b.len() == 0 || a[0] != b[0] {
        0
    } else {
        1 + common_prefix_len(a.skip(1), b.skip(1))
    }
}

/// The components of `p` from index `n` on; none where `n` is past the end.
pub open spec fn parts_from(p: Seq<Seq<char>>, n: nat) -> Seq<Seq<char>> {
    if n >= p.len() {
        Seq::empty()
    } else {
        p.skip(n as int)
    }
}

/// The pieces of `s` between slashes, empty ones included.
pub open spec fn split_slash(s: Seq<char>) -> Seq<Seq<char>>
    decreases s.len(),
{
    if s.len() == 0 {
        seq![Seq::<char>::empty()]
    } else {
        let init = split_slash(s.drop_last());
        if s.last() == '/' {
            init.push(Seq::<char>::empty())
        } else {
            init.drop_last().push(init.last().push(s.last()))
        }
    }
}

/// Whether the piece at index `index` of a split path is a component: empty
/// pieces are not, and `.` is one only in first place.
pub open spec fn is_kept_piece(piece: Seq<char>, index: int) -> bool {
    piece.len() > 0 && (piece != dot_part() || index == 0)
}

/// The pieces that are components, in order.
pub open spec fn kept_pieces(pieces: Seq<Seq<char>>) -> Seq<Seq<char>>
    decreases pieces.len(),
{
    if pieces.len() == 0 {
        Seq::<Seq<char>>::empty()
    } else if is_kept_piece(pieces.last(), pieces.len() - 1) {
        kept_pieces(pieces.drop_last()).push(pieces.last())
    } else {
        kept_pieces(pieces.drop_last())
    }
}

/// The root component where `s` starts with a slash, else nothing.
pub open spec fn root_prefix(s: Seq<char>) -> Seq<Seq<char>> {
    if s.len() > 0 && s[0] == '/' {
        seq![root_part()]
    } else {
        Seq::<Seq<char>>::empty()
    }
}

/// The components that the text `s` spells. Repeated and trailing slashes, and
/// `.` anywhere but in first place, spell nothing.
pub open spec fn parse_path(s: Seq<char>) -> Seq<Seq<char>> {
    root_prefix(s) + kept_pieces(split_slash(s))
}

/// The text of a path: its components, with a slash between two of them unless
/// the text so far already ends in one.
pub open spec fn render_path(p: Seq<Seq<char>>) -> Seq<char>
    decreases p.len(),
{
    if p.len() == 0 {
        Seq::<char>::empty()
    } else {
        let init = render_path(p.drop_last());
        if init.len() == 0 || init.last() == '/' {
            init + p.last()
        } else {
            init.push('/') + p.last()
        }
    }
}

/// A path whose text gets `suffix` appended: the suffix extends the last
/// component, or becomes a component of its own after the root or in the empty
/// path.
pub open spec fn with_suffix(p: Seq<Seq<char>>, suffix: Seq<char>) -> Seq<Seq<char>> {
    if p.len() == 0 || p.last() == root_part() {
        p.push(suffix)
    } else {
        p.drop_last().push(p.last() + suffix)
    }
}

/// The view of a vector of components.
pub open spec fn parts_view(parts: Seq<Vec<char>>) -> Seq<Seq<char>> {
    Seq::new(parts.len(), |i: int| parts[i]@)
}

/// A path, one entry per component.
#[derive(Debug)]
pub struct FilePath {
    pub parts: Vec<Vec<char>>,
}

impl View for FilePath {
    type V = Seq<Seq<char>>;

    open spec fn view(&self) -> Seq<Seq<char>> {
        parts_view(self.parts@)
    }
}

/// Pushing a component onto the vector pushes its view onto the path.
pub proof fn lemma_parts_view_push(parts: Seq<Vec<char>>, part: Vec<char>)
    ensures
        parts_view(parts.push(part)) == parts_view(parts).push(part@),
{
    let a = parts_view(parts.push(part));
    let b = parts_view(parts).push(part@);
    assert(a.len() == b.len());
    assert forall|i: int| 0 <= i < a.len() implies a[i] == b[i] by {
        if i < parts.len() {
            assert(parts.push(part)[i] == parts[i]);
            assert(parts_view(parts)[i] == parts[i]@);
        }
    }
    assert(a =~= b);
}

/// Dropping the last component of the vector drops it from the path.
pub proof fn lemma_parts_view_drop_last(parts: Seq<Vec<char>>)
    requires
        parts.len() > 0,
    ensures
        parts_view(parts.drop_last()) == parts_view(parts).drop_last(),
{
    let a = parts_view(parts.drop_last());
    let b = parts_view(parts).drop_last();
    assert(a.len() == b.len());
    assert forall|i: int| 0 <= i < a.len() implies a[i] == b[i] by {
        assert(parts.drop_last()[i] == parts[i]);
        assert(parts_view(parts)[i] == parts[i]@);
    }
    assert(a =~= b);
}

/// The characters of a string slice, in order.
pub fn chars_of(s: &str) -> (v: Vec<char>)
    ensures
        v@ == s@,
{
    let mut v: Vec<char> = Vec::new();
    for c in it: s.chars()
        invariant
            v@ == it.seq().take(it.index() as int),
            it.seq() == s@,
    {
        v.push(c);
    }
    v
}

/// The string made of the given characters.
pub fn string_of(v: &Vec<char>) -> (s: String)
    ensures
        s@ == v@,
{
    let mut s = String::new();
    let mut i: usize = 0;
    while i < v.len()
        invariant
            i <= v.len(),
            s@ == v@.take(i as int),
        decreases v.len() - i,
    {
        s.push(v[i]);
        i += 1;
    }
    s
}

/// A copy of a component.
pub fn copy_chars(v: &Vec<char>) -> (r: Vec<char>)
    ensures
        r@ == v@,
{
    let mut r: Vec<char> = Vec::new();
    let mut i: usize = 0;
    while i < v.len()
        invariant
            i <= v.len(),
            r@ == v@.take(i as int),
        decreases v.len() - i,
    {
        r.push(v[i]);
        i += 1;
    }
    r
}

/// Whether two components hold the same characters.
pub fn same_chars(a: &Vec<char>, b: &Vec<char>) -> (r: bool)
    ensures
        r == (a@ == b@),
{
    if a.len() != b.len() {
        return false;
    }
    let mut i: usize = 0;
    while i < a.len()
        invariant
            i <= a.len(),
            a.len() == b.len(),
            a@.take(i as int) == b@.take(i as int),
        decreases a.len() - i,
    {
        if a[i] != b[i] {
            return false;
        }
        assert(a@.take(i + 1) == a@.take(i as int).push(a@[i as int]));
        assert(b@.take(i + 1) == b@.take(i as int).push(b@[i as int]));
        i += 1;
    }
    assert(a@ == a@.take(a.len() as int));
    assert(b@ == b@.take(b.len() as int));
    true
}

/// Whether a component is the root.
pub fn is_root_chars(part: &Vec<char>) -> (r: bool)
    ensures
        r == (part@ == root_part()),
{
    let r = part.len() == 1 && part[0] == '/';
    assert(r ==> part@ =~= root_part());
    r
}

/// Whether a component is `.`.
pub fn is_dot_chars(part: &Vec<char>) -> (r: bool)
    ensures
        r == (part@ == dot_part()),
{
    let r = part.len() == 1 && part[0] == '.';
    assert(r ==> part@ =~= dot_part());
    r
}

/// Whether a component is `..`.
pub fn is_dotdot_chars(part: &Vec<char>) -> (r: bool)
    ensures
        r == (part@ == dotdot_part()),
{
    let r = part.len() == 2 && part[0] == '.' && part[1] == '.';
    assert(r ==> part@ =~= dotdot_part());
    r
}

/// The stem of a file name.
pub fn stem_chars(name: &Vec<char>) -> (stem: Vec<char>)
    ensures
        stem@ == stem_of(name@),
{
    let mut i: usize = name.len();
    assert(name@.take(name.len() as int) == name@);
    while i > 0 && name[i - 1] != '.'
        invariant
            i <= name.len(),
            last_dot(name@) == last_dot(name@.take(i as int)),
        decreases i,
    {
        assert(name@.take(i as int).drop_last() == name@.take(i - 1));
        i -= 1;
    }
    assert(name@.take(name.len() as int) == name@);
    if i <= 1 {
        // no dot at all, or the only dot comes first
        assert(last_dot(name@.take(i as int)) <= 0) by {
            if i == 1 {
                assert(name@.take(1).drop_last() == Seq::<char>::empty());
                reveal_with_fuel(last_dot, 2);
            }
        }
        return copy_chars(name);
    }
    let mut stem: Vec<char> = Vec::new();
    let mut j: usize = 0;
    while j < i - 1
        invariant
            j <= i - 1,
            i <= name.len(),
            stem@ == name@.take(j as int),
        decreases i - 1 - j,
    {
        stem.push(name[j]);
        assert(name@.take(j + 1) == name@.take(j as int).push(name@[j as int]));
        j += 1;
    }
    stem
}

impl PartialEq for FilePath {
    fn eq(&self, other: &FilePath) -> (r: bool) {
        self.same_as(other)
    }
}

impl vstd::std_specs::cmp::PartialEqSpecImpl for FilePath {
    open spec fn obeys_eq_spec() -> bool {
        true
    }

    open spec fn eq_spec(&self, other: &FilePath) -> bool {
        self@ == other@
    }
}

impl Clone for FilePath {
    fn clone(&self) -> (r: Self)
        ensures
            r@ == self@,
    {
        let mut parts: Vec<Vec<char>> = Vec::new();
        let mut i: usize = 0;
        while i < self.parts.len()
            invariant
                i <= self.parts.len(),
                parts_view(parts@) == self@.take(i as int),
            decreases self.parts.len() - i,
        {
            proof {
                lemma_parts_view_push(parts@, self.parts[i as int]);
            }
            let part = copy_chars(&self.parts[i]);
            proof {
                lemma_parts_view_push(parts@, part);
                assert(self@.take(i + 1) =~= self@.take(i as int).push(self@[i as int]));
            }
            parts.push(part);
            i += 1;
        }
        assert(self@.take(self.parts.len() as int) =~= self@);
        FilePath { parts }
    }
}

impl FilePath {
    /// The empty path.
    pub fn new() -> (r: Self)
        ensures
            r@ == Seq::<Seq<char>>::empty(),
    {
        let r = FilePath { parts: Vec::new() };
        assert(r@ =~= Seq::<Seq<char>>::empty());
        r
    }

    /// The path that the characters spell.
    pub fn from_chars(chars: &Vec<char>) -> (r: FilePath)
        ensures
            r@ == parse_path(chars@),
    {
        let mut parts: Vec<Vec<char>> = Vec::new();
        if chars.len() > 0 && chars[0] == '/' {
            let mut root: Vec<char> = Vec::new();
            root.push('/');
            assert(root@ =~= root_part());
            proof {
                lemma_parts_view_push(parts@, root);
            }
            parts.push(root);
        }
        assert(parts_view(parts@) =~= root_prefix(chars@));
        let mut current: Vec<char> = Vec::new();
        let mut first: bool = true;
        let ghost mut done: Seq<Seq<char>> = Seq::empty();
        let mut i: usize = 0;
        while i < chars.len()
            invariant
                i <= chars.len(),
                split_slash(chars@.take(i as int)) == done.push(current@),
                first == (done.len() == 0),
                parts_view(parts@) == root_prefix(chars@) + kept_pieces(done),
            decreases chars.len() - i,
        {
            let c = chars[i];
            proof {
                assert(chars@.take(i + 1).drop_last() == chars@.take(i as int));
                assert(chars@.take(i + 1).last() == c);
                assert(done.push(current@).drop_last() == done);
                assert(done.push(current@).last() == current@);
            }
            if c == '/' {
                let keep = current.len() > 0 && (first || !is_dot_chars(&current));
                proof {
                    let ghost pieces = done.push(current@);
                    assert(pieces.drop_last() == done);
                    assert(keep == is_kept_piece(pieces.last(), pieces.len() - 1));
                    done = pieces;
                }
                if keep {
                    proof {
                        lemma_parts_view_push(parts@, current);
                        assert((root_prefix(chars@) + kept_pieces(done.drop_last())).push(
                            current@,
                        ) =~= root_prefix(chars@) + kept_pieces(done));
                    }
                    parts.push(current);
                }
                current = Vec::new();
                first = false;
                assert(current@ =~= Seq::<char>::empty());
            } else {
                current.push(c);
            }
            i += 1;
        }
        assert(chars@.take(chars.len() as int) == chars@);
        let keep = current.len() > 0 && (first || !is_dot_chars(&current));
        proof {
            let ghost pieces = done.push(current@);
            assert(pieces.drop_last() == done);
            assert(keep == is_kept_piece(pieces.last(), pieces.len() - 1));
        }
        if keep {
            proof {
                lemma_parts_view_push(parts@, current);
                assert((root_prefix(chars@) + kept_pieces(done)).push(current@) =~= root_prefix(
                    chars@,
                ) + kept_pieces(split_slash(chars@)));
            }
            parts.push(current);
        }
        FilePath { parts }
    }

    /// The path that the text spells.
    pub fn from(s: &str) -> (r: FilePath)
        ensures
            r@ == parse_path(s@),
    {
        let chars = chars_of(s);
        FilePath::from_chars(&chars)
    }

    /// The characters of the path's text.
    pub fn to_chars(&self) -> (out: Vec<char>)
        ensures
            out@ == render_path(self@),
    {
        let mut out: Vec<char> = Vec::new();
        let mut i: usize = 0;
        while i < self.parts.len()
            invariant
                i <= self.parts.len(),
                out@ == render_path(self@.take(i as int)),
            decreases self.parts.len() - i,
        {
            proof {
                assert(self@.take(i + 1).drop_last() == self@.take(i as int));
                assert(self@.take(i + 1).last() == self.parts[i as int]@);
            }
            let n = out.len();
            if n > 0 && out[n - 1] != '/' {
                out.push('/');
            }
            let part = &self.parts[i];
            let ghost before = out@;
            let mut j: usize = 0;
            while j < part.len()
                invariant
                    j <= part.len(),
                    out@ == before + part@.take(j as int),
                decreases part.len() - j,
            {
                out.push(part[j]);
                assert(out@ =~= before + part@.take(j + 1));
                j += 1;
            }
            assert(part@.take(part.len() as int) == part@);
            i += 1;
        }
        assert(self@.take(self.parts.len() as int) == self@);
        out
    }

    /// The path's text.
    pub fn to_string(&self) -> (s: String)
        ensures
            s@ == render_path(self@),
    {
        let chars = self.to_chars();
        string_of(&chars)
    }

    /// The path whose text is that of `self` followed by `suffix`.
    pub fn with_suffix(&self, suffix: &str) -> (r: FilePath)
        ensures
            r@ == with_suffix(self@, suffix@),
    {
        let mut r = self.clone();
        let tail = chars_of(suffix);
        let n = r.parts.len();
        if n == 0 || is_root_chars(&r.parts[n - 1]) {
            proof {
                lemma_parts_view_push(r.parts@, tail);
            }
            r.parts.push(tail);
            return r;
        }
        proof {
            lemma_parts_view_drop_last(r.parts@);
        }
        let mut last = match r.parts.pop() {
            Some(last) => last,
            None => Vec::new(),
        };
        let ghost stem = last@;
        let mut j: usize = 0;
        while j < tail.len()
            invariant
                j <= tail.len(),
                last@ == stem + tail@.take(j as int),
            decreases tail.len() - j,
        {
            last.push(tail[j]);
            assert(last@ =~= stem + tail@.take(j + 1));
            j += 1;
        }
        assert(tail@.take(tail.len() as int) == tail@);
        proof {
            lemma_parts_view_push(r.parts@, last);
        }
        r.parts.push(last);
        r
    }

    /// Number of components.
    pub fn len(&self) -> (n: usize)
        ensures
            n == self@.len(),
    {
        self.parts.len()
    }

    /// Whether the path starts at the root.
    pub fn is_absolute(&self) -> (r: bool)
        ensures
            r == is_absolute_path(self@),
    {
        self.parts.len() > 0 && is_root_chars(&self.parts[0])
    }

    /// Whether two paths have the same components.
    pub fn same_as(&self, other: &FilePath) -> (r: bool)
        ensures
            r == (self@ == other@),
    {
        if self.parts.len() != other.parts.len() {
            return false;
        }
        let mut i: usize = 0;
        while i < self.parts.len()
            invariant
                i <= self.parts.len(),
                self.parts.len() == other.parts.len(),
                self@.take(i as int) == other@.take(i as int),
            decreases self.parts.len() - i,
        {
            if !same_chars(&self.parts[i], &other.parts[i]) {
                assert(self@[i as int] != other@[i as int]);
                return false;
            }
            assert(self@.take(i + 1) == self@.take(i as int).push(self@[i as int]));
            assert(other@.take(i + 1) == other@.take(i as int).push(other@[i as int]));
            i += 1;
        }
        assert(self@ == self@.take(self.parts.len() as int));
        assert(other@ == other@.take(other.parts.len() as int));
        true
    }

    /// Extends the path by `other`, as a shell would resolve `other` from
    /// inside `self`.
    pub fn push(&mut self, other: &FilePath)
        ensures
            final(self)@ == pushed(old(self)@, other@),
    {
        let mut i: usize = 0;
        if other.is_absolute() || self.parts.len() == 0 {
            self.parts = Vec::new();
            assert(self@ =~= Seq::<Seq<char>>::empty());
        } else if other.parts.len() > 0 && is_dot_chars(&other.parts[0]) {
            i = 1;
        }
        let ghost base = self@;
        let ghost start = i as int;
        assert(self@ =~= base + other@.subrange(start, i as int));
        assert(base + other@.skip(start) =~= pushed(old(self)@, other@)) by {
            assert(other@.skip(0) =~= other@);
            assert(other@.len() > 0 ==> other@[0] == other.parts[0]@);
            assert(Seq::<Seq<char>>::empty() + other@ =~= other@);
        }
        while i < other.parts.len()
            invariant
                0 <= start <= i <= other.parts.len(),
                self@ == base + other@.subrange(start, i as int),
            decreases other.parts.len() - i,
        {
            let part = copy_chars(&other.parts[i]);
            proof {
                lemma_parts_view_push(self.parts@, part);
                assert((base + other@.subrange(start, i as int)).push(other@[i as int]) =~= base
                    + other@.subrange(start, i + 1));
            }
            self.parts.push(part);
            i += 1;
        }
        assert(other@.subrange(start, other@.len() as int) =~= other@.skip(start));
    }

    /// The path made of `self` extended by `other`.
    pub fn join(&self, other: &FilePath) -> (r: FilePath)
        ensures
            r@ == pushed(self@, other@),
    {
        let mut r = self.clone();
        r.push(other);
        r
    }

    /// The path made of `self` extended by the path that `name` spells.
    pub fn join_str(&self, name: &str) -> (r: FilePath)
        ensures
            r@ == pushed(self@, parse_path(name@)),
    {
        let other = FilePath::from(name);
        self.join(&other)
    }

    /// Removes the last component. Returns false, and changes nothing, where
    /// the path has no parent.
    pub fn pop(&mut self) -> (r: bool)
        ensures
            r == has_parent(old(self)@),
            final(self)@ == popped(old(self)@),
    {
        let n = self.parts.len();
        if n == 0 || is_root_chars(&self.parts[n - 1]) {
            return false;
        }
        proof {
            lemma_parts_view_drop_last(self.parts@);
        }
        self.parts.pop();
        true
    }

    /// The final component, if it names a file or directory.
    pub fn file_name(&self) -> (r: Option<Vec<char>>)
        ensures
            r is Some == name_of(self@) is Some,
            r is Some ==> r->0@ == name_of(self@)->0,
    {
        let n = self.parts.len();
        if n == 0 {
            return None;
        }
        let last = &self.parts[n - 1];
        if is_root_chars(last) || is_dot_chars(last) || is_dotdot_chars(last) {
            return None;
        }
        Some(copy_chars(last))
    }

    /// The final component without its last extension.
    pub fn file_stem(&self) -> (r: Option<Vec<char>>)
        ensures
            r is Some == stem_of_path(self@) is Some,
            r is Some ==> r->0@ == stem_of_path(self@)->0,
    {
        match self.file_name() {
            Some(name) => Some(stem_chars(&name)),
            None => None,
        }
    }

    /// Length of the run of leading components shared with `other`.
    pub fn common_prefix_with(&self, other: &FilePath) -> (n: usize)
        ensures
            n == common_prefix_len(self@, other@),
    {
        let mut i: usize = 0;
        assert(self@.skip(0) =~= self@ && other@.skip(0) =~= other@);
        while i < self.parts.len() && i < other.parts.len() && same_chars(
            &self.parts[i],
            &other.parts[i],
        )
            invariant
                i <= self.parts.len(),
                i <= other.parts.len(),
                common_prefix_len(self@, other@) == i + common_prefix_len(
                    self@.skip(i as int),
                    other@.skip(i as int),
                ),
            decreases self.parts.len() - i,
        {
            assert(self@.skip(i as int)[0] == self@[i as int]);
            assert(other@.skip(i as int)[0] == other@[i as int]);
            assert(self@.skip(i as int).skip(1) =~= self@.skip(i + 1));
            assert(other@.skip(i as int).skip(1) =~= other@.skip(i + 1));
            i += 1;
        }
        proof {
            if i < self.parts.len() && i < other.parts.len() {
                assert(self@.skip(i as int)[0] == self@[i as int]);
                assert(other@.skip(i as int)[0] == other@[i as int]);
            }
        }
        i
    }

    /// The path made of the components from index `n` on.
    pub fn tail_from(&self, n: usize) -> (r: FilePath)
        ensures
            r@ == parts_from(self@, n as nat),
    {
        let mut parts: Vec<Vec<char>> = Vec::new();
        if n >= self.parts.len() {
            let r = FilePath { parts };
            assert(r@ =~= Seq::<Seq<char>>::empty());
            return r;
        }
        let mut i: usize = n;
        assert(parts_view(parts@) =~= self@.subrange(n as int, i as int));
        while i < self.parts.len()
            invariant
                n <= i <= self.parts.len(),
                parts_view(parts@) == self@.subrange(n as int, i as int),
            decreases self.parts.len() - i,
        {
            let part = copy_chars(&self.parts[i]);
            proof {
                lemma_parts_view_push(parts@, part);
                assert(self@.subrange(n as int, i as int).push(self@[i as int]) =~= self@.subrange(
                    n as int,
                    i + 1,
                ));
            }
            parts.push(part);
            i += 1;
        }
        assert(self@.subrange(n as int, self@.len() as int) =~= self@.skip(n as int));
        FilePath { parts }
    }
}

/// Whether no character of the component is a slash.
pub open spec fn no_slash(part: Seq<char>) -> bool {
    forall|i: int| 0 <= i < part.len() ==> #[trigger] part[i] != '/'
}

/// A path in the form that parsing gives: no component is empty; the root
/// stands in first place only, and so does `.`; no other component holds a
/// slash.
pub open spec fn is_normal_path(p: Seq<Seq<char>>) -> bool {
    forall|i: int|
        0 <= i < p.len() ==> {
            &&& (#[trigger] p[i]).len() > 0
            &&& (i > 0 ==> no_slash(p[i]) && p[i] != dot_part())
            &&& (i == 0 ==> p[i] == root_part() || no_slash(p[i]))
        }
}

/// What splitting the text of a normal path at its slashes gives.
pub open spec fn pieces_of(p: Seq<Seq<char>>) -> Seq<Seq<char>> {
    if p.len() == 0 {
        seq![Seq::<char>::empty()]
    } else if p[0] == root_part() {
        if p.len() == 1 {
            seq![Seq::<char>::empty(), Seq::<char>::empty()]
        } else {
            seq![Seq::<char>::empty()] + p.skip(1)
        }
    } else {
        p
    }
}

/// A text splits into at least one piece, and no piece holds a slash.
pub proof fn lemma_split_pieces(s: Seq<char>)
    ensures
        split_slash(s).len() >= 1,
        forall|i: int| 0 <= i < split_slash(s).len() ==> no_slash(#[trigger] split_slash(s)[i]),
        s.len() > 0 && s[0] == '/' ==> split_slash(s).len() >= 2 && split_slash(s)[0].len() == 0,
        s.len() > 0 && s[0] != '/' ==> split_slash(s)[0].len() > 0,
    decreases s.len(),
{
    if s.len() > 0 {
        let before = s.drop_last();
        lemma_split_pieces(before);
        let init = split_slash(before);
        if before.len() > 0 {
            assert(before[0] == s[0]);
        }
        if s.last() != '/' {
            let now = init.drop_last().push(init.last().push(s.last()));
            assert forall|i: int| 0 <= i < now.len() implies no_slash(#[trigger] now[i]) by {
                if i < now.len() - 1 {
                    assert(now[i] == init[i]);
                } else {
                    assert(no_slash(init.last()));
                }
            }
        } else {
            let now = init.push(Seq::<char>::empty());
            assert forall|i: int| 0 <= i < now.len() implies no_slash(#[trigger] now[i]) by {
                if i < now.len() - 1 {
                    assert(now[i] == init[i]);
                }
            }
        }
    }
}

/// Text without a slash that follows a text extends its last piece.
pub proof fn lemma_split_append(s: Seq<char>, t: Seq<char>)
    requires
        no_slash(t),
    ensures
        split_slash(s + t) == split_slash(s).drop_last().push(split_slash(s).last() + t),
    decreases t.len(),
{
    lemma_split_pieces(s);
    let pieces = split_slash(s);
    if t.len() == 0 {
        assert(s + t =~= s);
        assert(pieces.last() + t =~= pieces.last());
        assert(pieces.drop_last().push(pieces.last()) =~= pieces);
    } else {
        let head = t.drop_last();
        assert(no_slash(head)) by {
            assert forall|i: int| 0 <= i < head.len() implies #[trigger] head[i] != '/' by {
                assert(head[i] == t[i]);
            }
        }
        lemma_split_append(s, head);
        assert((s + t).drop_last() =~= s + head);
        assert((s + t).last() == t.last());
        assert(t.last() == t[t.len() - 1]);
        let init = split_slash(s + head);
        assert(init.drop_last() =~= pieces.drop_last());
        assert(init.last().push(t.last()) =~= pieces.last() + t);
    }
}

/// A normal path without its last component is a normal path.
pub proof fn lemma_normal_drop_last(p: Seq<Seq<char>>)
    requires
        is_normal_path(p),
        p.len() > 0,
    ensures
        is_normal_path(p.drop_last()),
{
    let init = p.drop_last();
    assert forall|i: int| 0 <= i < init.len() implies {
        &&& (#[trigger] init[i]).len() > 0
        &&& (i > 0 ==> no_slash(init[i]) && init[i] != dot_part())
        &&& (i == 0 ==> init[i] == root_part() || no_slash(init[i]))
    } by {
        assert(init[i] == p[i]);
    }
}

/// The text of a normal path that has components is not empty, starts as
/// its first component does, and ends in a slash only if the path is the
/// root.
pub proof fn lemma_render_ends(p: Seq<Seq<char>>)
    requires
        is_normal_path(p),
        p.len() > 0,
    ensures
        render_path(p).len() > 0,
        render_path(p)[0] == p[0][0],
        render_path(p).last() == '/' <==> (p.len() == 1 && p[0] == root_part()),
    decreases p.len(),
{
    let init = p.drop_last();
    let last = p.last();
    assert(last.len() > 0);
    if init.len() == 0 {
        assert(render_path(init) =~= Seq::<char>::empty());
        assert(render_path(p) =~= last);
        if last != root_part() {
            assert(no_slash(last));
            assert(last[last.len() - 1] != '/');
        } else {
            assert(last =~= seq!['/']);
        }
    } else {
        lemma_normal_drop_last(p);
        lemma_render_ends(init);
        assert(init[0] == p[0]);
        assert(no_slash(last));
        assert(last[last.len() - 1] != '/');
        let r = render_path(init);
        if r.last() == '/' {
            assert(render_path(p) =~= r + last);
            assert((r + last)[0] == r[0]);
        } else {
            assert(render_path(p) =~= r.push('/') + last);
            assert((r.push('/') + last)[0] == r[0]);
        }
    }
}

/// Splitting the text of a normal path gives its components back, with an
/// empty piece for the root.
pub proof fn lemma_split_render(p: Seq<Seq<char>>)
    requires
        is_normal_path(p),
    ensures
        split_slash(render_path(p)) == pieces_of(p),
    decreases p.len(),
{
    let none = Seq::<char>::empty();
    if p.len() == 0 {
        assert(render_path(p) =~= none);
    } else {
        let init = p.drop_last();
        let last = p.last();
        lemma_normal_drop_last(p);
        lemma_split_render(init);
        let r = render_path(init);
        if init.len() == 0 {
            assert(r =~= none);
            assert(render_path(p) =~= last);
            if last == root_part() {
                assert(last =~= none.push('/'));
                assert(last.drop_last() =~= none);
                assert(split_slash(last) =~= seq![none, none]);
                assert(p[0] == last);
            } else {
                assert(no_slash(last));
                lemma_split_append(none, last);
                assert(none + last =~= last);
                assert(split_slash(none) =~= seq![none]);
                assert(split_slash(last) =~= seq![last]);
                assert(p =~= seq![last]);
            }
        } else {
            lemma_render_ends(init);
            assert(init[0] == p[0]);
            assert(no_slash(last));
            if r.last() == '/' {
                // the path so far is the root
                assert(render_path(p) =~= r + last);
                lemma_split_append(r, last);
                assert(init =~= seq![root_part()]);
                assert(pieces_of(init) =~= seq![none, none]);
                assert(none + last =~= last);
                assert(p.skip(1) =~= seq![last]);
                assert(split_slash(r + last) =~= seq![none] + p.skip(1));
            } else {
                let with_slash = r.push('/');
                assert(render_path(p) =~= with_slash + last);
                assert(with_slash.drop_last() =~= r);
                assert(split_slash(with_slash) =~= pieces_of(init).push(none));
                lemma_split_append(with_slash, last);
                assert(pieces_of(init).push(none).drop_last() =~= pieces_of(init));
                assert(none + last =~= last);
                if p[0] == root_part() {
                    assert(init.len() >= 2);
                    assert((seq![none] + init.skip(1)).push(last) =~= seq![none] + p.skip(1));
                } else {
                    assert(init.push(last) =~= p);
                }
            }
        }
    }
}

/// Pieces that follow others, none of them empty or `.`, are all
/// components.
pub proof fn lemma_kept_append(front: Seq<Seq<char>>, rest: Seq<Seq<char>>)
    requires
        front.len() >= 1,
        forall|i: int| 0 <= i < rest.len() ==> (#[trigger] rest[i]).len() > 0 && rest[i] != dot_part(),
    ensures
        kept_pieces(front + rest) == kept_pieces(front) + rest,
    decreases rest.len(),
{
    if rest.len() == 0 {
        assert(front + rest =~= front);
        assert(kept_pieces(front) + rest =~= kept_pieces(front));
    } else {
        let head = rest.drop_last();
        assert forall|i: int| 0 <= i < head.len() implies (#[trigger] head[i]).len() > 0 && head[i]
            != dot_part() by {
            assert(head[i] == rest[i]);
        }
        lemma_kept_append(front, head);
        assert((front + rest).drop_last() =~= front + head);
        assert((front + rest).last() == rest.last());
        assert(rest.last() == rest[rest.len() - 1]);
        assert((kept_pieces(front) + head).push(rest.last()) =~= kept_pieces(front) + rest);
    }
}

/// The text of a normal path spells that path.
pub proof fn lemma_parse_render(p: Seq<Seq<char>>)
    requires
        is_normal_path(p),
    ensures
        parse_path(render_path(p)) == p,
{
    let none = Seq::<char>::empty();
    lemma_split_render(p);
    let text = render_path(p);
    if p.len() == 0 {
        assert(text =~= none);
        reveal_with_fuel(kept_pieces, 2);
        assert(seq![none].drop_last() =~= Seq::<Seq<char>>::empty());
        assert(parse_path(text) =~= p);
    } else {
        lemma_render_ends(p);
        let rest = p.skip(1);
        assert forall|i: int| 0 <= i < rest.len() implies (#[trigger] rest[i]).len() > 0 && rest[i]
            != dot_part() by {
            assert(rest[i] == p[i + 1]);
        }
        if p[0] == root_part() {
            assert(text[0] == '/');
            assert(kept_pieces(seq![none]) =~= Seq::<Seq<char>>::empty()) by {
                reveal_with_fuel(kept_pieces, 2);
                assert(seq![none].drop_last() =~= Seq::<Seq<char>>::empty());
            }
            if p.len() == 1 {
                assert(seq![none, none] =~= seq![none] + seq![none].drop_last().push(none));
                assert(seq![none, none].drop_last() =~= seq![none]);
                assert(kept_pieces(seq![none, none]) =~= Seq::<Seq<char>>::empty());
                assert(parse_path(text) =~= p);
            } else {
                lemma_kept_append(seq![none], rest);
                assert(seq![root_part()] + rest =~= p);
                assert(parse_path(text) =~= p);
            }
        } else {
            assert(no_slash(p[0]));
            assert(text[0] != '/');
            let front = seq![p[0]];
            assert(front.drop_last() =~= Seq::<Seq<char>>::empty());
            assert(kept_pieces(front) =~= front) by {
                reveal_with_fuel(kept_pieces, 2);
            }
            lemma_kept_append(front, rest);
            assert(front + rest =~= p);
            assert(parse_path(text) =~= p);
        }
    }
}

/// Of the pieces of a text, those that are components are not empty and
/// hold no slash, and `.` is among them only as the first piece.
pub proof fn lemma_kept_normal(pieces: Seq<Seq<char>>)
    requires
        forall|i: int| 0 <= i < pieces.len() ==> no_slash(#[trigger] pieces[i]),
    ensures
        forall|j: int|
            0 <= j < kept_pieces(pieces).len() ==> {
                &&& (#[trigger] kept_pieces(pieces)[j]).len() > 0
                &&& no_slash(kept_pieces(pieces)[j])
                &&& (kept_pieces(pieces)[j] == dot_part() ==> j == 0 && pieces[0] == dot_part())
            },
    decreases pieces.len(),
{
    if pieces.len() > 0 {
        let init = pieces.drop_last();
        assert forall|i: int| 0 <= i < init.len() implies no_slash(#[trigger] init[i]) by {
            assert(init[i] == pieces[i]);
        }
        lemma_kept_normal(init);
        let kept = kept_pieces(pieces);
        assert forall|j: int| 0 <= j < kept.len() implies {
            &&& (#[trigger] kept[j]).len() > 0
            &&& no_slash(kept[j])
            &&& (kept[j] == dot_part() ==> j == 0 && pieces[0] == dot_part())
        } by {
            if j < kept_pieces(init).len() {
                assert(kept[j] == kept_pieces(init)[j]);
                if kept[j] == dot_part() {
                    assert(init[0] == pieces[0]);
                }
            } else {
                assert(kept[j] == pieces.last());
                if kept[j] == dot_part() {
                    assert(pieces.len() == 1);
                    assert(init =~= Seq::<Seq<char>>::empty());
                }
            }
        }
    }
}

/// What a text spells is a normal path.
pub proof fn lemma_parse_normal(s: Seq<char>)
    ensures
        is_normal_path(parse_path(s)),
{
    lemma_split_pieces(s);
    lemma_kept_normal(split_slash(s));
    let pieces = split_slash(s);
    let kept = kept_pieces(pieces);
    let p = parse_path(s);
    assert forall|i: int| 0 <= i < p.len() implies {
        &&& (#[trigger] p[i]).len() > 0
        &&& (i > 0 ==> no_slash(p[i]) && p[i] != dot_part())
        &&& (i == 0 ==> p[i] == root_part() || no_slash(p[i]))
    } by {
        if s.len() > 0 && s[0] == '/' {
            assert(pieces[0].len() == 0);
            if i > 0 {
                assert(p[i] == kept[i - 1]);
            } else {
                assert(p[0] == root_part());
                assert(root_part().len() == 1);
            }
        } else {
            assert(p =~= kept);
        }
    }
}

/// The components of a normal path from some index on are a normal path.
pub proof fn lemma_parts_from_normal(p: Seq<Seq<char>>, n: nat)
    requires
        is_normal_path(p),
    ensures
        is_normal_path(parts_from(p, n)),
{
    let rest = parts_from(p, n);
    if n < p.len() {
        assert forall|i: int| 0 <= i < rest.len() implies {
            &&& (#[trigger] rest[i]).len() > 0
            &&& (i > 0 ==> no_slash(rest[i]) && rest[i] != dot_part())
            &&& (i == 0 ==> rest[i] == root_part() || no_slash(rest[i]))
        } by {
            assert(rest[i] == p[i + n]);
        }
    }
}

/// A normal path extended by a normal path is a normal path.
pub proof fn lemma_pushed_normal(base: Seq<Seq<char>>, other: Seq<Seq<char>>)
    requires
        is_normal_path(base),
        is_normal_path(other),
    ensures
        is_normal_path(pushed(base, other)),
{
    if !(is_absolute_path(other) || base.len() == 0) {
        let tail = appended_parts(other);
        let whole = base + tail;
        assert forall|i: int| 0 <= i < whole.len() implies {
            &&& (#[trigger] whole[i]).len() > 0
            &&& (i > 0 ==> no_slash(whole[i]) && whole[i] != dot_part())
            &&& (i == 0 ==> whole[i] == root_part() || no_slash(whole[i]))
        } by {
            if i < base.len() {
                assert(whole[i] == base[i]);
            } else {
                let j = i - base.len();
                if other.len() > 0 && other[0] == dot_part() {
                    assert(tail[j] == other[j + 1]);
                } else {
                    assert(tail[j] == other[j]);
                    if j == 0 {
                        assert(other[0] != root_part());
                    }
                }
            }
        }
    }
}

/// A text that can stand as one component below others: not empty, without
/// a slash, and not `.`.
pub open spec fn is_plain_name(t: Seq<char>) -> bool {
    t.len() > 0 && no_slash(t) && t != dot_part()
}

/// A plain name spells the path of that one component, and a path extended
/// by it has it as its last component.
pub proof fn lemma_plain_name(base: Seq<Seq<char>>, t: Seq<char>)
    requires
        is_plain_name(t),
    ensures
        parse_path(t) == seq![t],
        pushed(base, parse_path(t)) == base.push(t),
{
    let none = Seq::<char>::empty();
    lemma_split_append(none, t);
    assert(none + t =~= t);
    assert(split_slash(none) =~= seq![none]);
    assert(split_slash(t) =~= seq![t]);
    assert(seq![t].drop_last() =~= Seq::<Seq<char>>::empty());
    assert(kept_pieces(seq![t]) =~= seq![t]) by {
        reveal_with_fuel(kept_pieces, 2);
    }
    assert(t[0] != '/');
    assert(parse_path(t) =~= seq![t]);
    assert(seq![t][0] == t);
    assert(t != root_part()) by {
        if t == root_part() {
            assert(root_part()[0] == '/');
        }
    }
    assert(pushed(base, seq![t]) =~= base.push(t));
}

} // verus!
