//! File system paths as byte strings, compared and taken apart component by
//! component.

use vstd::prelude::*;

use crate::text::same_bytes;

verus! {

/// The separator between the components of a path.
pub const SEPARATOR: u8 = 47;

/// The byte of the component that names the current directory.
pub const DOT: u8 = 46;

/// The pieces of a byte string between separators, empty ones too.
pub open spec fn segments(s: Seq<u8>) -> Seq<Seq<u8>>
    decreases s.len(),
{
    if s.len() == 0 {
        seq![Seq::<u8>::empty()]
    } else {
        let before = segments(s.drop_last());
        if s.last() == SEPARATOR {
            before.push(Seq::<u8>::empty())
        } else {
            before.drop_last().push(before.last().push(s.last()))
        }
    }
}

/// A piece that names something: neither empty nor a lone dot.
pub open spec fn named(segment: Seq<u8>) -> bool {
    segment.len() > 0 && segment != seq![DOT]
}

/// Whether a path starts at the root directory.
pub open spec fn absolute(path: Seq<u8>) -> bool {
    path.len() > 0 && path[0] == SEPARATOR
}

/// The components of a path: the root directory or a leading dot, then every
/// piece that names something. Repeated separators, trailing separators and
/// dots elsewhere do not count.
pub open spec fn components(path: Seq<u8>) -> Seq<Seq<u8>> {
    let rest = segments(path).filter(|segment: Seq<u8>| named(segment));
    if absolute(path) {
        seq![seq![SEPARATOR]] + rest
    } else if segments(path)[0] == seq![DOT] {
        seq![seq![DOT]] + rest
    } else {
        rest
    }
}

/// Two paths are the same when their components are.
pub open spec fn same_path(left: Seq<u8>, right: Seq<u8>) -> bool {
    components(left) == components(right)
}

/// A path as the operating system holds it: bytes, not necessarily UTF-8.
#[derive(Debug)]
pub struct PathText {
    pub bytes: Vec<u8>,
}

impl PartialEq for PathText {
    fn eq(&self, other: &PathText) -> (r: bool) {
        self.same_as(other)
    }
}

impl vstd::std_specs::cmp::PartialEqSpecImpl for PathText {
    open spec fn obeys_eq_spec() -> bool {
        true
    }

    open spec fn eq_spec(&self, other: &PathText) -> bool {
        same_path(self@, other@)
    }
}

impl Eq for PathText {

}

impl View for PathText {
    type V = Seq<u8>;

    open spec fn view(&self) -> Seq<u8> {
        self.bytes@
    }
}

impl Clone for PathText {
    fn clone(&self) -> (r: Self)
        ensures
            r@ == self@,
    {
        PathText { bytes: self.bytes.clone() }
    }
}

pub proof fn lemma_segments_nonempty(s: Seq<u8>)
    ensures
        segments(s).len() > 0,
    decreases s.len(),
{
    if s.len() > 0 {
        lemma_segments_nonempty(s.drop_last());
    }
}

/// The contents of a list of byte strings.
pub open spec fn views(list: Seq<Vec<u8>>) -> Seq<Seq<u8>> {
    list.map_values(|v: Vec<u8>| v@)
}

/// The pieces of a byte string between separators.
pub fn split_segments(s: &[u8]) -> (r: Vec<Vec<u8>>)
    ensures
        views(r@) == segments(s@),
{
    let mut done: Vec<Vec<u8>> = Vec::new();
    let mut current: Vec<u8> = Vec::new();
    let mut i: usize = 0;
    assert(views(done@).push(current@) =~= segments(s@.take(0)));
    while i < s.len()
        invariant
            i <= s.len(),
            views(done@).push(current@) == segments(s@.take(i as int)),
        decreases s.len() - i,
    {
        let ghost before = views(done@).push(current@);
        assert(s@.take(i as int + 1).drop_last() =~= s@.take(i as int));
        assert(before.drop_last() =~= views(done@));
        assert(before.last() == current@);
        if s[i] == SEPARATOR {
            done.push(current);
            assert(views(done@) =~= before);
            current = Vec::new();
        } else {
            current.push(s[i]);
        }
        i += 1;
    }
    assert(s@.take(s@.len() as int) =~= s@);
    let ghost before = views(done@).push(current@);
    done.push(current);
    assert(views(done@) =~= before);
    done
}

proof fn lemma_filter_push(list: Seq<Seq<u8>>, last: Seq<u8>)
    ensures
        list.push(last).filter(|segment: Seq<u8>| named(segment)) == if named(last) {
            list.filter(|segment: Seq<u8>| named(segment)).push(last)
        } else {
            list.filter(|segment: Seq<u8>| named(segment))
        },
{
    reveal(Seq::filter);
    assert(list.push(last).drop_last() =~= list);
}

/// The components of a path.
pub fn split_components(path: &[u8]) -> (r: Vec<Vec<u8>>)
    ensures
        views(r@) == components(path@),
{
    let pieces = split_segments(path);
    let mut out: Vec<Vec<u8>> = Vec::new();
    proof {
        lemma_segments_nonempty(path@);
        assert(views(pieces@).len() == pieces@.len());
        assert(views(pieces@)[0] == pieces@[0]@);
    }
    if path.len() > 0 && path[0] == SEPARATOR {
        let mut root: Vec<u8> = Vec::new();
        root.push(SEPARATOR);
        assert(root@ =~= seq![SEPARATOR]);
        out.push(root);
        assert(views(out@) =~= seq![seq![SEPARATOR]]);
    } else if pieces[0].len() == 1 && pieces[0][0] == DOT {
        let mut here: Vec<u8> = Vec::new();
        here.push(DOT);
        assert(here@ =~= seq![DOT]);
        assert(pieces@[0]@ =~= seq![DOT]);
        out.push(here);
        assert(views(out@) =~= seq![seq![DOT]]);
    } else {
        assert(views(out@) =~= Seq::<Seq<u8>>::empty());
    }
    let ghost prefix = views(out@);
    let ghost all = views(pieces@);
    let mut i: usize = 0;
    assert(all.take(0).filter(|segment: Seq<u8>| named(segment)) =~= Seq::<Seq<u8>>::empty()) by {
        reveal(Seq::filter);
    }
    assert(views(out@) =~= prefix + all.take(0).filter(|segment: Seq<u8>| named(segment)));
    while i < pieces.len()
        invariant
            i <= pieces.len(),
            all == views(pieces@),
            views(out@) == prefix + all.take(i as int).filter(
                |segment: Seq<u8>| named(segment),
            ),
        decreases pieces.len() - i,
    {
        let ghost before = out@;
        proof {
            assert(all[i as int] == pieces@[i as int]@);
            assert(all.take(i as int + 1) =~= all.take(i as int).push(all[i as int]));
            lemma_filter_push(all.take(i as int), all[i as int]);
        }
        if pieces[i].len() > 0 && !(pieces[i].len() == 1 && pieces[i][0] == DOT) {
            assert(pieces@[i as int]@ != seq![DOT]) by {
                assert(seq![DOT].len() == 1);
                assert(seq![DOT][0] == DOT);
            }
            let piece = pieces[i].clone();
            assert(piece@ == all[i as int]);
            out.push(piece);
            assert(views(out@) =~= views(before).push(piece@));
            assert(views(out@) =~= prefix + all.take(i as int + 1).filter(
                |segment: Seq<u8>| named(segment),
            ));
        } else {
            assert(pieces@[i as int]@.len() == 1 ==> pieces@[i as int]@ =~= seq![DOT]);
        }
        i += 1;
    }
    assert(all.take(all.len() as int) =~= all);
    assert(views(out@) =~= components(path@));
    out
}

/// Whether two lists of byte strings are equal.
fn same_lists(left: &Vec<Vec<u8>>, right: &Vec<Vec<u8>>) -> (r: bool)
    ensures
        r == (views(left@) == views(right@)),
{
    assert(views(left@).len() == left@.len());
    assert(views(right@).len() == right@.len());
    if left.len() != right.len() {
        return false;
    }
    let mut i: usize = 0;
    while i < left.len()
        invariant
            i <= left.len(),
            left.len() == right.len(),
            forall|j: int| 0 <= j < i ==> views(left@)[j] == views(right@)[j],
        decreases left.len() - i,
    {
        if !same_bytes(left[i].as_slice(), right[i].as_slice()) {
            assert(views(left@)[i as int] == left@[i as int]@);
            assert(views(right@)[i as int] == right@[i as int]@);
            return false;
        }
        i += 1;
    }
    assert(views(left@) =~= views(right@));
    true
}

/// Every prefix of a path that drops exactly its last component.
pub open spec fn drops_last_component(path: Seq<u8>, length: int) -> bool {
    &&& 0 <= length <= path.len()
    &&& components(path.take(length)) == components(path).drop_last()
}

/// The path without its last component: the shortest prefix that has all the
/// other components.
pub open spec fn is_parent(path: Seq<u8>, length: int) -> bool {
    &&& drops_last_component(path, length)
    &&& forall|shorter: int| 0 <= shorter < length ==> !drops_last_component(path, shorter)
}

/// The path without its last component, for one that has such a component.
pub open spec fn parent_path(path: Seq<u8>) -> Seq<u8> {
    path.take(choose|length: int| is_parent(path, length))
}

/// There is only one path without a last component.
pub proof fn lemma_parent_path(path: Seq<u8>, length: int)
    requires
        is_parent(path, length),
    ensures
        parent_path(path) == path.take(length),
{
    let chosen = choose|length: int| is_parent(path, length);
    assert(is_parent(path, chosen));
    assert(!(chosen < length) && !(length < chosen));
}

/// Whether a path has a component besides the root directory.
pub open spec fn has_parent(path: Seq<u8>) -> bool {
    components(path).len() > 0 && components(path) != seq![seq![SEPARATOR]]
}

proof fn lemma_segments_first(s: Seq<u8>)
    ensures
        absolute(s) ==> segments(s).len() >= 2 && segments(s)[0].len() == 0,
        s.len() > 0 && !absolute(s) ==> segments(s)[0].len() > 0,
    decreases s.len(),
{
    if s.len() > 0 {
        lemma_segments_nonempty(s.drop_last());
        lemma_segments_first(s.drop_last());
        if s.len() == 1 {
            assert(s.drop_last() =~= Seq::<u8>::empty());
            assert(segments(s.drop_last()) =~= seq![Seq::<u8>::empty()]);
            if s.last() != SEPARATOR {
                assert(segments(s)[0] == Seq::<u8>::empty().push(s.last()));
            }
        } else {
            assert(s.drop_last()[0] == s[0]);
        }
    }
}

/// An empty path has no components.
pub proof fn lemma_components_empty()
    ensures
        components(Seq::<u8>::empty()) == Seq::<Seq<u8>>::empty(),
{
    let none = Seq::<Seq<u8>>::empty();
    lemma_filter_push(none, Seq::<u8>::empty());
    assert(none.push(Seq::<u8>::empty()) =~= segments(Seq::<u8>::empty()));
    assert(none.filter(|segment: Seq<u8>| named(segment)) =~= none) by {
        reveal(Seq::filter);
    }
    assert(segments(Seq::<u8>::empty())[0] != seq![DOT]) by {
        assert(seq![DOT].len() == 1);
    }
}

/// Some prefix of a path drops exactly its last component.
proof fn lemma_parent_exists(path: Seq<u8>) -> (length: int)
    requires
        has_parent(path),
    ensures
        drops_last_component(path, length),
    decreases path.len(),
{
    lemma_components_empty();
    if path.len() == 0 {
        assert(path =~= Seq::<u8>::empty());
        0
    } else {
        let shorter = path.drop_last();
        let before = segments(shorter);
        let none = Seq::<Seq<u8>>::empty();
        lemma_segments_nonempty(shorter);
        lemma_segments_first(path);
        lemma_segments_first(shorter);
        assert(before =~= before.drop_last().push(before.last()));
        lemma_filter_push(before.drop_last(), before.last());
        assert(none.filter(|segment: Seq<u8>| named(segment)) =~= none) by {
            reveal(Seq::filter);
        }
        assert(path.take(path.len() - 1) =~= shorter);
        assert(path.take(0) =~= Seq::<u8>::empty());
        assert(shorter.len() > 0 ==> shorter[0] == path[0]);
        assert(shorter.len() == 0 ==> shorter =~= Seq::<u8>::empty());
        let longer = before.last().push(path.last());
        if path.last() == SEPARATOR {
            lemma_filter_push(before, Seq::<u8>::empty());
            if shorter.len() == 0 {
                assert(components(path) =~= seq![seq![SEPARATOR]]);
            }
            assert(segments(path)[0] == before[0]);
            assert(components(path) =~= components(shorter));
            let length = lemma_parent_exists(shorter);
            assert(path.take(length) =~= shorter.take(length));
            length
        } else {
            assert(segments(path) =~= before.drop_last().push(longer));
            lemma_filter_push(before.drop_last(), longer);
            if before.len() > 1 {
                assert(segments(path)[0] == before[0]);
            } else {
                assert(before.drop_last() =~= none);
                assert(before[0] == before.last());
                assert(segments(path)[0] == longer);
            }
            if named(before.last()) {
                // The last component only grows.
                assert(longer.len() >= 2 && seq![DOT].len() == 1);
                assert(named(longer));
                assert(components(shorter).last() == before.last());
                if !has_parent(shorter) {
                    lemma_no_separator(shorter);
                    assert(before.last()[0] == SEPARATOR);
                    assert(segments(shorter)[before.len() - 1][0] != SEPARATOR);
                }
                assert(components(path).drop_last() =~= components(shorter).drop_last());
                let length = lemma_parent_exists(shorter);
                assert(path.take(length) =~= shorter.take(length));
                length
            } else if !named(longer) {
                // A lone dot: it counts only at the start of a path.
                assert(longer.len() == 1);
                if shorter.len() == 0 {
                    assert(components(path).drop_last() =~= none);
                    0
                } else {
                    assert(components(path) =~= components(shorter));
                    let length = lemma_parent_exists(shorter);
                    assert(path.take(length) =~= shorter.take(length));
                    length
                }
            } else if before.len() == 1 && before.last() == seq![DOT] {
                // The leading dot becomes part of a name.
                assert(longer.len() == 2);
                assert(components(path).drop_last() =~= none);
                0
            } else {
                // A new component starts here.
                assert(components(path).drop_last() =~= components(shorter));
                path.len() - 1
            }
        }
    }
}

/// No piece holds a separator.
proof fn lemma_no_separator(s: Seq<u8>)
    ensures
        forall|i: int, j: int|
            0 <= i < segments(s).len() && 0 <= j < segments(s)[i].len() ==> #[trigger] segments(
                s,
            )[i][j] != SEPARATOR,
    decreases s.len(),
{
    if s.len() > 0 {
        lemma_no_separator(s.drop_last());
        lemma_segments_nonempty(s.drop_last());
    }
}

/// A path of no bytes has no components.
pub proof fn lemma_empty_or_not(path: Seq<u8>)
    ensures
        path.len() == 0 ==> components(path).len() == 0,
{
    if path.len() == 0 {
        assert(path =~= Seq::<u8>::empty());
        lemma_components_empty();
    }
}

/// A path continued by another: an absolute one replaces it.
pub open spec fn joined(base: Seq<u8>, rest: Seq<u8>) -> Seq<u8> {
    if absolute(rest) {
        rest
    } else if base.len() == 0 || base.last() == SEPARATOR {
        base + rest
    } else {
        base.push(SEPARATOR) + rest
    }
}

/// Whether the last component of a path is a name, and not the root directory,
/// the current directory or a parent directory.
pub open spec fn has_file_name(path: Seq<u8>) -> bool {
    let all = components(path);
    &&& all.len() > 0
    &&& all.last() != seq![SEPARATOR]
    &&& all.last() != seq![DOT]
    &&& all.last() != seq![DOT, DOT]
}

impl PathText {
    /// The path spelled by a text.
    pub fn of(text: &str) -> (r: Self)
        ensures
            r@ == vstd::utf8::encode_utf8(text@),
    {
        let bytes = text.as_bytes();
        let mut out: Vec<u8> = Vec::new();
        out.extend_from_slice(bytes);
        assert(out@ =~= bytes@);
        PathText { bytes: out }
    }

    /// Whether this path and another have the same components.
    pub fn same_as(&self, other: &PathText) -> (r: bool)
        ensures
            r == same_path(self@, other@),
    {
        let left = split_components(self.bytes.as_slice());
        let right = split_components(other.bytes.as_slice());
        same_lists(&left, &right)
    }

    /// Whether this path starts at the root directory.
    pub fn is_absolute(&self) -> (r: bool)
        ensures
            r == absolute(self@),
    {
        self.bytes.len() > 0 && self.bytes[0] == SEPARATOR
    }

    /// This path without its last component.
    pub fn parent(&self) -> (r: Option<PathText>)
        ensures
            r is Some <==> has_parent(self@),
            r matches Some(parent) ==> parent@ == parent_path(self@) && exists|length: int|
                #[trigger] is_parent(self@, length) && parent@ == self@.take(length),
    {
        let all = split_components(self.bytes.as_slice());
        assert(views(all@).len() == all@.len());
        if all.len() == 0 {
            return None;
        }
        if all.len() == 1 && all[0].len() == 1 && all[0][0] == SEPARATOR {
            assert(views(all@)[0] =~= seq![SEPARATOR]);
            assert(views(all@) =~= seq![seq![SEPARATOR]]);
            return None;
        }
        assert(has_parent(self@)) by {
            if components(self@) == seq![seq![SEPARATOR]] {
                assert(views(all@)[0] == all@[0]@);
                assert(all@[0]@ == seq![SEPARATOR]);
            }
        }
        let ghost witness = lemma_parent_exists(self@);
        let mut wanted = all.clone();
        assert(views(wanted@) =~= views(all@)) by {
            assert(wanted@.len() == all@.len());
            assert forall|i: int| 0 <= i < all@.len() implies wanted@[i]@ == all@[i]@ by {
                assert(cloned(all@[i], wanted@[i]));
            }
        }
        let _ = wanted.pop();
        assert(views(wanted@) =~= components(self@).drop_last());
        let mut length: usize = 0;
        let mut prefix: Vec<u8> = Vec::new();
        assert(prefix@ =~= self@.take(0));
        while length < self.bytes.len()
            invariant
                length <= self.bytes.len(),
                prefix@ == self@.take(length as int),
                views(wanted@) == components(self@).drop_last(),
                has_parent(self@),
                drops_last_component(self@, witness),
                forall|shorter: int|
                    0 <= shorter < length ==> !drops_last_component(self@, shorter),
            decreases self.bytes.len() - length,
        {
            let here = split_components(prefix.as_slice());
            if same_lists(&here, &wanted) {
                assert(is_parent(self@, length as int));
                proof {
                    lemma_parent_path(self@, length as int);
                }
                return Some(PathText { bytes: prefix });
            }
            prefix.push(self.bytes[length]);
            length += 1;
            assert(prefix@ =~= self@.take(length as int));
        }
        assert(witness == self@.len());
        assert(is_parent(self@, length as int));
        proof {
            lemma_parent_path(self@, length as int);
        }
        Some(PathText { bytes: prefix })
    }

    /// This path continued by another.
    pub fn join(&self, rest: &PathText) -> (r: PathText)
        ensures
            r@ == joined(self@, rest@),
    {
        if rest.is_absolute() {
            return rest.clone();
        }
        let mut bytes: Vec<u8> = self.bytes.clone();
        if bytes.len() > 0 && bytes[bytes.len() - 1] != SEPARATOR {
            bytes.push(SEPARATOR);
        }
        let ghost before = bytes@;
        bytes.extend_from_slice(rest.bytes.as_slice());
        assert(bytes@ =~= before + rest@);
        PathText { bytes }
    }

    /// The last component of this path, if it is a name.
    pub fn file_name(&self) -> (r: Option<Vec<u8>>)
        ensures
            r is Some <==> has_file_name(self@),
            r matches Some(name) ==> name@ == components(self@).last(),
    {
        let mut all = split_components(self.bytes.as_slice());
        assert(views(all@).len() == all@.len());
        let ghost list = all@;
        match all.pop() {
            None => None,
            Some(last) => {
                assert(last@ == list.last()@);
                assert(last@ == views(list).last());
                if (last.len() == 1 && (last[0] == SEPARATOR || last[0] == DOT)) || (last.len() == 2
                    && last[0] == DOT && last[1] == DOT) {
                    assert(last@ =~= seq![SEPARATOR] || last@ =~= seq![DOT] || last@ =~= seq![
                        DOT,
                        DOT,
                    ]);
                    None
                } else {
                    Some(last)
                }
            },
        }
    }

    /// This path with its last component replaced by a name, or continued by
    /// the name where its last component is none.
    pub fn with_file_name(&self, name: &PathText) -> (r: PathText)
        ensures
            has_file_name(self@) ==> exists|length: int|
                #[trigger] is_parent(self@, length) && r@ == joined(self@.take(length), name@),
            !has_file_name(self@) ==> r@ == joined(self@, name@),
    {
        match self.file_name() {
            None => self.join(name),
            Some(_) => {
                assert(has_parent(self@)) by {
                    if components(self@) == seq![seq![SEPARATOR]] {
                        assert(components(self@).last() == seq![SEPARATOR]);
                    }
                }
                match self.parent() {
                    Some(parent) => parent.join(name),
                    None => self.join(name),
                }
            },
        }
    }
}

proof fn lemma_segments_join(left: Seq<u8>, right: Seq<u8>)
    ensures
        segments(left.push(SEPARATOR) + right) == segments(left) + segments(right),
    decreases right.len(),
{
    let whole = left.push(SEPARATOR) + right;
    lemma_segments_nonempty(right);
    if right.len() == 0 {
        assert(whole =~= left.push(SEPARATOR));
        assert(whole.drop_last() =~= left);
        assert(segments(whole) =~= segments(left) + segments(right));
    } else {
        let shorter = right.drop_last();
        lemma_segments_join(left, shorter);
        lemma_segments_nonempty(shorter);
        assert(whole.drop_last() =~= left.push(SEPARATOR) + shorter);
        assert(whole.last() == right.last());
        let before = segments(left) + segments(shorter);
        assert(before.last() == segments(shorter).last());
        assert(segments(whole) =~= segments(left) + segments(right));
    }
}

/// A path that is joined to a directory leads on from it: it has the parts of the directory
/// and then its own. One that is absolute stands by itself.
pub proof fn law_joined_path_leads_on(base: Seq<u8>, rest: Seq<u8>)
    requires
        base.len() > 0,
        segments(rest)[0] != seq![DOT],
    ensures
        !absolute(rest) ==> components(joined(base, rest)) == components(base) + components(rest),
        absolute(rest) ==> joined(base, rest) == rest,
{
    if !absolute(rest) {
        let keep = |segment: Seq<u8>| named(segment);
        lemma_segments_nonempty(base);
        lemma_segments_nonempty(rest);
        if base.last() == SEPARATOR {
            let start = base.drop_last();
            let none = Seq::<u8>::empty();
            lemma_segments_nonempty(start);
            assert(start.push(SEPARATOR) =~= base);
            assert(base + rest =~= start.push(SEPARATOR) + rest);
            lemma_segments_join(start, rest);
            lemma_segments_join(start, none);
            assert(start.push(SEPARATOR) + none =~= base);
            Seq::filter_distributes_over_add(segments(start), segments(rest), keep);
            Seq::filter_distributes_over_add(segments(start), segments(none), keep);
            assert(segments(none).filter(keep) =~= Seq::<Seq<u8>>::empty()) by {
                reveal(Seq::filter);
                let one = segments(none);
                assert(one.drop_last() =~= Seq::<Seq<u8>>::empty());
                assert(one.drop_last().filter(keep) =~= Seq::<Seq<u8>>::empty());
            }
            assert(segments(base).filter(keep) =~= segments(start).filter(keep));
            assert(segments(base)[0] == segments(start)[0]);
            assert(segments(base + rest)[0] == segments(start)[0]);
            assert(components(base + rest) =~= components(base) + components(rest));
        } else {
            lemma_segments_join(base, rest);
            Seq::filter_distributes_over_add(segments(base), segments(rest), keep);
            assert(segments(base.push(SEPARATOR) + rest)[0] == segments(base)[0]);
            assert(components(base.push(SEPARATOR) + rest) =~= components(base) + components(rest));
        }
    }
}

/// Separators and single dots that follow a path do not change where it leads.
pub proof fn law_trailing_separators_do_not_matter(path: Seq<u8>)
    requires
        path.len() > 0,
    ensures
        same_path(path, path.push(SEPARATOR)),
        same_path(path, path.push(SEPARATOR).push(DOT)),
        same_path(path, path),
{
    let keep = |segment: Seq<u8>| named(segment);
    let none = Seq::<u8>::empty();
    let dot = seq![DOT];
    lemma_segments_nonempty(path);
    lemma_segments_join(path, none);
    lemma_segments_join(path, dot);
    assert(path.push(SEPARATOR) + none =~= path.push(SEPARATOR));
    assert(path.push(SEPARATOR) + dot =~= path.push(SEPARATOR).push(DOT));
    assert(dot.drop_last() =~= none);
    assert(segments(dot) =~= seq![dot]) by {
        assert(segments(none) =~= seq![none]);
        assert(none.push(DOT) =~= dot);
        assert(dot.last() == DOT);
        assert(segments(dot) == segments(none).drop_last().push(segments(none).last().push(DOT)));
    }
    Seq::filter_distributes_over_add(segments(path), segments(none), keep);
    Seq::filter_distributes_over_add(segments(path), segments(dot), keep);
    assert(segments(none).filter(keep) =~= Seq::<Seq<u8>>::empty()) by {
        reveal(Seq::filter);
        assert(segments(none).drop_last() =~= Seq::<Seq<u8>>::empty());
        assert(segments(none).drop_last().filter(keep) =~= Seq::<Seq<u8>>::empty());
    }
    assert(segments(dot).filter(keep) =~= Seq::<Seq<u8>>::empty()) by {
        reveal(Seq::filter);
        assert(segments(dot).drop_last() =~= Seq::<Seq<u8>>::empty());
        assert(segments(dot).drop_last().filter(keep) =~= Seq::<Seq<u8>>::empty());
    }
    assert(segments(path.push(SEPARATOR)).filter(keep) =~= segments(path).filter(keep));
    assert(segments(path.push(SEPARATOR).push(DOT)).filter(keep) =~= segments(path).filter(keep));
}

} // verus!
