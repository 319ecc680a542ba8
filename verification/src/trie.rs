//! The subscription trie: topic filters held segment by segment in a tree,
//! and the matching of a topic against all of them at once.

use vstd::prelude::*;

verus! {

/// One level of a topic: the characters between two separators.
pub type Segment = Seq<char>;

/// A topic or a topic filter as its levels.
pub type Path = Seq<Seq<char>>;

/// The separator of the levels of a topic.
pub open spec fn is_separator(c: char) -> bool {
    c as u32 == 0x2f
}

/// The levels of a topic: the stretches of characters between its
/// separators. A topic without a separator is one level, the empty topic one
/// empty level, and each separator begins a new level.
pub open spec fn split_topic(topic: Seq<char>) -> Path
    decreases topic.len(),
{
    if topic.len() == 0 {
        seq![Seq::empty()]
    } else {
        let before = split_topic(topic.drop_last());
        if is_separator(topic.last()) {
            before.push(Seq::empty())
        } else {
            before.drop_last().push(before.last().push(topic.last()))
        }
    }
}

/// A topic has at least one level.
pub proof fn lemma_split_topic_len(topic: Seq<char>)
    ensures
        split_topic(topic).len() >= 1,
    decreases topic.len(),
{
    if topic.len() > 0 {
        lemma_split_topic_len(topic.drop_last());
    }
}

/// Splits a topic into its levels.
pub fn split(topic: &str) -> (levels: Vec<Vec<char>>)
    ensures
        levels@.len() >= 1,
        path_view(levels@) == split_topic(topic@),
{
    broadcast use vstd::string::axiom_spec_iter;

    let mut levels: Vec<Vec<char>> = Vec::new();
    let mut current: Vec<char> = Vec::new();
    assert(path_view(levels@).push(current@) =~= split_topic(topic@.take(0)));
    for c in it: topic.chars()
        invariant
            it.seq() == topic@,
            path_view(levels@).push(current@) == split_topic(topic@.take(it.index())),
    {
        let ghost done = topic@.take(it.index());
        let ghost next = topic@.take(it.index() + 1);
        assert(next.drop_last() == done);
        assert(next.last() == c);
        if c as u32 == 0x2f {
            levels.push(current);
            current = Vec::new();
            assert(path_view(levels@) =~= split_topic(done));
        } else {
            let ghost before = current@;
            current.push(c);
            assert(split_topic(done).drop_last() =~= path_view(levels@));
            assert(split_topic(done).last() == before);
        }
    }
    assert(topic@.take(topic@.len() as int) == topic@);
    let ghost before = path_view(levels@);
    levels.push(current);
    assert(path_view(levels@) =~= before.push(current@));
    levels
}

/// The levels of a list as sequences of characters.
pub open spec fn path_view(levels: Seq<Vec<char>>) -> Path {
    levels.map_values(|level: Vec<char>| level@)
}

/// Tells whether two levels are the same.
pub fn same_level(a: &Vec<char>, b: &Vec<char>) -> (same: bool)
    ensures
        same == (a@ == b@),
{
    if a.len() != b.len() {
        return false;
    }
    let mut i: usize = 0;
    while i < a.len()
        invariant
            i <= a@.len(),
            a@.len() == b@.len(),
            a@.take(i as int) == b@.take(i as int),
        decreases a@.len() - i,
    {
        if a[i] as u32 != b[i] as u32 {
            return false;
        }
        proof {
            vstd::utf8::char_u32_cast(a@[i as int], a@[i as int] as u32);
            vstd::utf8::char_u32_cast(b@[i as int], b@[i as int] as u32);
            assert(a@.take(i + 1) =~= a@.take(i as int).push(a@[i as int]));
            assert(b@.take(i + 1) =~= b@.take(i as int).push(b@[i as int]));
        }
        i += 1;
    }
    assert(a@.take(a@.len() as int) == a@);
    assert(b@.take(b@.len() as int) == b@);
    true
}

/// Two paths with the same first level and the same levels behind it are the same.
pub proof fn lemma_same_path(a: Path, b: Path)
    requires
        a.len() > 0,
        b.len() > 0,
        a[0] == b[0],
        a.skip(1) == b.skip(1),
    ensures
        a == b,
{
    assert(a.len() == a.skip(1).len() + 1);
    assert(b.len() == b.skip(1).len() + 1);
    assert forall|i: int| 0 <= i < a.len() implies a[i] == b[i] by {
        if i > 0 {
            assert(a[i] == a.skip(1)[i - 1]);
            assert(b[i] == b.skip(1)[i - 1]);
        }
    }
    assert(a =~= b);
}

/// One level of the trie: whether a filter ends here, and the levels below
/// by the text of their segment.
pub struct TrieNode {
    pub subscribed: bool,
    pub children: Vec<(Vec<char>, TrieNode)>,
}

impl TrieNode {
    /// A filter ends at `path` below this node.
    pub open spec fn holds(&self, path: Path) -> bool
        decreases path.len(),
    {
        if path.len() == 0 {
            self.subscribed
        } else {
            exists|i: int|
                0 <= i < self.children@.len() && (#[trigger] self.children@[i]).0@ == path[0]
                    && self.children@[i].1.holds(path.skip(1))
        }
    }

    /// The node has a level below it for the segment.
    pub open spec fn has_key(&self, key: Segment) -> bool {
        exists|i: int| 0 <= i < self.children@.len() && (#[trigger] self.children@[i]).0@ == key
    }

    /// The place of the level for the segment among the levels below.
    pub open spec fn key_index(&self, key: Segment) -> int {
        choose|i: int| 0 <= i < self.children@.len() && (#[trigger] self.children@[i]).0@ == key
    }

    /// The node is of use: a filter ends at it, or it has levels below it.
    pub open spec fn alive(&self) -> bool {
        self.subscribed || self.children@.len() > 0
    }

    /// No two levels below a node have the same segment, and every node below
    /// is of use: no branch ends in a node at which no filter ends.
    pub open spec fn wf(&self) -> bool
        decreases self,
    {
        &&& forall|i: int, j: int|
            0 <= i < j < self.children@.len() ==> (#[trigger] self.children@[i]).0@ != (
            #[trigger] self.children@[j]).0@
        &&& forall|i: int|
            0 <= i < self.children@.len() ==> (#[trigger] self.children@[i]).1.wf()
                && self.children@[i].1.alive()
    }

    /// A node at which no filter ends, without levels below.
    pub fn new(subscribed: bool) -> (node: TrieNode)
        ensures
            node.subscribed == subscribed,
            node.children@.len() == 0,
            node.wf(),
    {
        TrieNode { subscribed, children: Vec::new() }
    }

    /// Tells whether a filter ends at the node.
    pub fn has_subscription(&self) -> (yes: bool)
        ensures
            yes == self.subscribed,
    {
        self.subscribed
    }

    /// Marks the node as the end of a filter, or takes the mark away.
    pub fn set_subscription(&mut self, subscribed: bool)
        ensures
            final(self).subscribed == subscribed,
            final(self).children == old(self).children,
    {
        self.subscribed = subscribed;
    }

    /// Tells whether the node has levels below it.
    pub fn has_children(&self) -> (yes: bool)
        ensures
            yes == (self.children@.len() > 0),
    {
        !self.children.is_empty()
    }

    /// The place of the level for the segment among the levels below, if
    /// there is such a level.
    pub fn get_child(&self, part: &Vec<char>) -> (at: Option<usize>)
        ensures
            match at {
                Some(i) => i < self.children@.len() && self.children@[i as int].0@ == part@,
                None => !self.has_key(part@),
            },
    {
        let mut i: usize = 0;
        while i < self.children.len()
            invariant
                i <= self.children@.len(),
                forall|j: int| 0 <= j < i ==> (#[trigger] self.children@[j]).0@ != part@,
            decreases self.children@.len() - i,
        {
            if same_level(&self.children[i].0, part) {
                return Some(i);
            }
            i += 1;
        }
        None
    }

    /// Tells whether the node has a level below it for the segment.
    pub fn has_child(&self, part: &Vec<char>) -> (yes: bool)
        ensures
            yes == self.has_key(part@),
    {
        self.get_child(part).is_some()
    }
}

impl TrieNode {
    /// The place of the level for the segment among the levels below. Where
    /// there is no such level yet, a new one is put behind the others.
    pub fn get_or_insert_child(&mut self, part: &Vec<char>) -> (at: usize)
        ensures
            at < final(self).children@.len(),
            final(self).children@[at as int].0@ == part@,
            final(self).subscribed == old(self).subscribed,
            old(self).has_key(part@) ==> final(self).children == old(self).children,
            !old(self).has_key(part@) ==> at == old(self).children@.len() && final(self).children@.drop_last() == old(self).children@ && !final(self).children@[at as int].1.alive(),
    {
        match self.get_child(part) {
            Some(at) => at,
            None => {
                let key = part.clone();
                assert(key@ =~= part@);
                self.children.push((key, TrieNode::new(false)));
                assert(self.children@.drop_last() =~= old(self).children@);
                self.children.len() - 1
            },
        }
    }

    /// Puts the filter whose levels from `from` on are those of `levels` below
    /// this node: goes down level by level, makes the levels that are
    /// missing, and marks the last one.
    pub fn insert_at(&mut self, levels: &Vec<Vec<char>>, from: usize)
        requires
            from <= levels@.len(),
            old(self).wf(),
        ensures
            final(self).wf(),
            final(self).alive(),
            from < levels@.len() ==> final(self).subscribed == old(self).subscribed,
            forall|path: Path|
                final(self).holds(path) <==> (old(self).holds(path) || path == path_view(
                    levels@,
                ).skip(from as int)),
        decreases levels@.len() - from,
    {
        let ghost target = path_view(levels@).skip(from as int);
        if from == levels.len() {
            self.subscribed = true;
            assert forall|path: Path|
                self.holds(path) <==> (old(self).holds(path) || path == target) by {
                if path.len() == 0 {
                    assert(path =~= target);
                }
            }
            return ;
        }
        let at = self.get_or_insert_child(&levels[from]);
        let ghost before = *self;
        let ghost key = levels@[from as int]@;
        let ghost rest = path_view(levels@).skip(from + 1);
        assert(target[0] == key);
        assert(target.skip(1) =~= rest);
        assert(before.children@[at as int].1.wf());
        self.children[at].1.insert_at(levels, from + 1);
        assert(self.children@ == before.children@.update(at as int, self.children@[at as int]));
        assert(self.children@[at as int].0 == before.children@[at as int].0);
        assert(self.wf()) by {
            assert forall|i: int, j: int| 0 <= i < j < self.children@.len() implies (
            #[trigger] self.children@[i]).0@ != (#[trigger] self.children@[j]).0@ by {
                assert(self.children@[i].0 == before.children@[i].0);
                assert(self.children@[j].0 == before.children@[j].0);
                if old(self).has_key(key) {
                    assert(before.children@[i] == old(self).children@[i]);
                    assert(before.children@[j] == old(self).children@[j]);
                } else {
                    assert(before.children@[i] == before.children@.drop_last()[i]);
                    if j == at {
                        assert(old(self).children@[i].0@ != key);
                    } else {
                        assert(before.children@[j] == before.children@.drop_last()[j]);
                    }
                }
            }
            assert forall|i: int| 0 <= i < self.children@.len() implies (
            #[trigger] self.children@[i]).1.wf() && self.children@[i].1.alive() by {
                if i != at {
                    assert(self.children@[i] == before.children@[i]);
                    if !old(self).has_key(key) {
                        assert(before.children@[i] == old(self).children@[i]);
                    }
                }
            }
        }
        assert forall|path: Path|
            self.holds(path) <==> (old(self).holds(path) || path == target) by {
            if path.len() > 0 {
                let tail = path.skip(1);
                if path[0] == key {
                    assert(path == target <==> tail == rest) by {
                        if tail == rest {
                            lemma_same_path(path, target);
                        }
                    }
                    if self.holds(path) {
                        let i = choose|i: int|
                            0 <= i < self.children@.len() && (#[trigger] self.children@[i]).0@
                                == path[0] && self.children@[i].1.holds(tail);
                        assert(self.children@[i].0 == before.children@[i].0);
                        assert(i == at);
                        if before.children@[at as int].1.holds(tail) {
                            assert(old(self).has_key(key));
                            assert(old(self).children@[at as int].1.holds(tail));
                        }
                    }
                    if old(self).holds(path) {
                        let i = choose|i: int|
                            0 <= i < old(self).children@.len() && (#[trigger] old(self).children@[i]).0@ == path[0] && old(self).children@[i].1.holds(tail);
                        assert(old(self).has_key(key));
                        assert(i == at);
                        assert(self.children@[at as int].1.holds(tail));
                    }
                    if path == target {
                        assert(self.children@[at as int].1.holds(tail));
                    }
                } else {
                    assert(path != target);
                    if self.holds(path) {
                        let i = choose|i: int|
                            0 <= i < self.children@.len() && (#[trigger] self.children@[i]).0@
                                == path[0] && self.children@[i].1.holds(tail);
                        assert(self.children@[i].0 == before.children@[i].0);
                        assert(i != at);
                        assert(self.children@[i] == before.children@[i]);
                        assert(i < old(self).children@.len());
                        assert(old(self).children@[i] == before.children@[i]);
                    }
                    if old(self).holds(path) {
                        let i = choose|i: int|
                            0 <= i < old(self).children@.len() && (#[trigger] old(self).children@[i]).0@ == path[0] && old(self).children@[i].1.holds(tail);
                        assert(before.children@[i] == old(self).children@[i]);
                        assert(i != at);
                        assert(self.children@[i] == before.children@[i]);
                    }
                }
            } else {
                assert(path != target);
            }
        }
    }
}

/// The segment that stands for all levels from its own on.
pub open spec fn multi_level() -> Segment {
    seq!['#']
}

/// The segment that stands for any one level.
pub open spec fn single_level() -> Segment {
    seq!['+']
}

impl TrieNode {
    /// Takes away the level at place `at` among the levels below.
    pub fn remove_child(&mut self, at: usize)
        requires
            at < old(self).children@.len(),
        ensures
            final(self).subscribed == old(self).subscribed,
            final(self).children@ == old(self).children@.remove(at as int),
    {
        self.children.remove(at);
    }

    /// No filter ends at or below a node that is of no use.
    pub proof fn lemma_dead_holds_nothing(&self, path: Path)
        requires
            !self.alive(),
        ensures
            !self.holds(path),
    {
    }

    /// Takes away the filter whose levels from `from` on are those of
    /// `levels` below this node: finds the node at which it ends, clears its
    /// mark, and on the way back takes away each node that is of no use any more.
    pub fn delete_at(&mut self, levels: &Vec<Vec<char>>, from: usize)
        requires
            from <= levels@.len(),
            old(self).wf(),
        ensures
            final(self).wf(),
            from < levels@.len() ==> final(self).subscribed == old(self).subscribed,
            forall|path: Path|
                final(self).holds(path) <==> (old(self).holds(path) && path != path_view(
                    levels@,
                ).skip(from as int)),
        decreases levels@.len() - from,
    {
        let ghost target = path_view(levels@).skip(from as int);
        if from == levels.len() {
            self.subscribed = false;
            assert forall|path: Path|
                self.holds(path) <==> (old(self).holds(path) && path != target) by {
                if path.len() == 0 {
                    assert(path =~= target);
                }
            }
            return ;
        }
        let ghost key = levels@[from as int]@;
        let ghost rest = path_view(levels@).skip(from + 1);
        assert(target[0] == key);
        assert(target.skip(1) =~= rest);
        match self.get_child(&levels[from]) {
            None => {
                assert forall|path: Path|
                    self.holds(path) <==> (old(self).holds(path) && path != target) by {
                    if old(self).holds(path) && path == target {
                        let i = choose|i: int|
                            0 <= i < self.children@.len() && (#[trigger] self.children@[i]).0@
                                == path[0] && self.children@[i].1.holds(path.skip(1));
                        assert(self.has_key(key));
                    }
                }
            },
            Some(at) => {
                self.children[at].1.delete_at(levels, from + 1);
                let ghost mid = *self;
                assert(mid.children@ == old(self).children@.update(
                    at as int,
                    mid.children@[at as int],
                ));
                assert(mid.children@[at as int].0 == old(self).children@[at as int].0);
                let dead = !self.children[at].1.has_subscription()
                    && !self.children[at].1.has_children();
                if dead {
                    self.remove_child(at);
                }
                assert(self.wf()) by {
                    assert forall|i: int, j: int| 0 <= i < j < self.children@.len() implies (
                    #[trigger] self.children@[i]).0@ != (#[trigger] self.children@[j]).0@ by {
                        let oi = if dead && i >= at {
                            i + 1
                        } else {
                            i
                        };
                        let oj = if dead && j >= at {
                            j + 1
                        } else {
                            j
                        };
                        assert(self.children@[i].0 == old(self).children@[oi].0);
                        assert(self.children@[j].0 == old(self).children@[oj].0);
                    }
                    assert forall|i: int| 0 <= i < self.children@.len() implies (
                    #[trigger] self.children@[i]).1.wf() && self.children@[i].1.alive() by {
                        let oi = if dead && i >= at {
                            i + 1
                        } else {
                            i
                        };
                        if oi != at {
                            assert(self.children@[i] == old(self).children@[oi]);
                        }
                    }
                }
                assert forall|path: Path|
                    self.holds(path) <==> (old(self).holds(path) && path != target) by {
                    if path.len() > 0 {
                        let tail = path.skip(1);
                        if path[0] == key && tail == rest {
                            lemma_same_path(path, target);
                        }
                        if self.holds(path) {
                            let i = choose|i: int|
                                0 <= i < self.children@.len() && (
                                #[trigger] self.children@[i]).0@ == path[0]
                                    && self.children@[i].1.holds(tail);
                            let oi = if dead && i >= at {
                                i + 1
                            } else {
                                i
                            };
                            assert(self.children@[i].0 == old(self).children@[oi].0);
                            if oi != at {
                                assert(self.children@[i] == old(self).children@[oi]);
                                assert(old(self).children@[oi].0@ != key);
                            } else {
                                assert(old(self).children@[at as int].1.holds(tail));
                            }
                            assert(old(self).holds(path));
                        }
                        if old(self).holds(path) && path != target {
                            let oi = choose|i: int|
                                0 <= i < old(self).children@.len() && (#[trigger] old(
                                    self,
                                ).children@[i]).0@ == path[0] && old(self).children@[i].1.holds(
                                    tail,
                                );
                            if oi == at {
                                assert(mid.children@[at as int].1.holds(tail));
                                if dead {
                                    mid.children@[at as int].1.lemma_dead_holds_nothing(tail);
                                }
                                assert(self.children@[at as int].1.holds(tail));
                            } else {
                                let i = if dead && oi > at {
                                    oi - 1
                                } else {
                                    oi
                                };
                                assert(self.children@[i] == old(self).children@[oi]);
                            }
                            assert(self.holds(path));
                        }
                    } else {
                        assert(path != target);
                    }
                }
            },
        }
    }

    /// The level below for the segment, where there is one.
    pub open spec fn child(&self, key: Segment) -> TrieNode {
        self.children@[self.key_index(key)].1
    }

    /// A topic whose levels are `levels` matches a filter at or below this
    /// node. At each node, first: a level below for the multi-level wildcard
    /// matches whatever is left of the topic, even nothing. Then: where no
    /// level of the topic is left, the topic matches if a filter ends at the
    /// node. Else the next level of the topic is matched below the level for
    /// the single-level wildcard where there is one, and only where there is
    /// none below the level for its own text.
    pub open spec fn matches(&self, levels: Path) -> bool
        decreases levels.len(),
    {
        if self.has_key(multi_level()) {
            true
        } else if levels.len() == 0 {
            self.subscribed
        } else if self.has_key(single_level()) {
            self.child(single_level()).matches(levels.skip(1))
        } else if self.has_key(levels[0]) {
            self.child(levels[0]).matches(levels.skip(1))
        } else {
            false
        }
    }
}

/// The multi-level wildcard as a level.
fn multi_level_key() -> (key: Vec<char>)
    ensures
        key@ == multi_level(),
{
    let mut key: Vec<char> = Vec::new();
    key.push('#');
    assert(key@ =~= multi_level());
    key
}

/// The single-level wildcard as a level.
fn single_level_key() -> (key: Vec<char>)
    ensures
        key@ == single_level(),
{
    let mut key: Vec<char> = Vec::new();
    key.push('+');
    assert(key@ =~= single_level());
    key
}

/// Tells whether the topic whose levels from `from` on are those of `levels`
/// matches a filter at or below `node`.
pub fn match_topic_part(node: &TrieNode, levels: &Vec<Vec<char>>, from: usize) -> (found: bool)
    requires
        from <= levels@.len(),
        node.wf(),
    ensures
        found == node.matches(path_view(levels@).skip(from as int)),
    decreases levels@.len() - from,
{
    let ghost left = path_view(levels@).skip(from as int);
    if node.has_child(&multi_level_key()) {
        return true;
    }
    if from == levels.len() {
        return node.has_subscription();
    }
    assert(left[0] == levels@[from as int]@);
    assert(left.skip(1) =~= path_view(levels@).skip(from + 1));
    if let Some(at) = node.get_child(&single_level_key()) {
        assert(node.key_index(single_level()) == at);
        return match_topic_part(&node.children[at].1, levels, from + 1);
    }
    match node.get_child(&levels[from]) {
        Some(at) => {
            assert(node.key_index(left[0]) == at);
            match_topic_part(&node.children[at].1, levels, from + 1)
        },
        None => false,
    }
}

/// Tells whether the topic matches a filter at or below `node`.
pub fn match_topic(node: &TrieNode, topic: &str) -> (found: bool)
    requires
        node.wf(),
    ensures
        found == node.matches(split_topic(topic@)),
{
    let levels = split(topic);
    assert(path_view(levels@).skip(0) == path_view(levels@));
    match_topic_part(node, &levels, 0)
}

/// Some filter of the set begins with the levels of `at`.
pub open spec fn continues(filters: Set<Path>, at: Path) -> bool {
    exists|rest: Path| filters.contains(#[trigger] (at + rest))
}

/// A topic matches a set of filters, where `at` is what was matched of the
/// filters so far and `rest` what is left of the topic. At each step, first: a
/// filter that goes on with the multi-level wildcard matches whatever is left
/// of the topic, even nothing. Then: where nothing is left, the topic matches
/// if a filter ends here. Else a level is taken from the topic: for the
/// single-level wildcard where a filter goes on with it, and only where none
/// does for the own text of the level, where a filter goes on with that.
pub open spec fn filters_match(filters: Set<Path>, at: Path, rest: Path) -> bool
    decreases rest.len(),
{
    if continues(filters, at.push(multi_level())) {
        true
    } else if rest.len() == 0 {
        filters.contains(at)
    } else if continues(filters, at.push(single_level())) {
        filters_match(filters, at.push(single_level()), rest.skip(1))
    } else if continues(filters, at.push(rest[0])) {
        filters_match(filters, at.push(rest[0]), rest.skip(1))
    } else {
        false
    }
}

impl TrieNode {
    /// A filter ends at or below every node that is of use.
    pub proof fn lemma_alive_holds(&self) -> (path: Path)
        requires
            self.wf(),
            self.alive(),
        ensures
            self.holds(path),
        decreases self,
    {
        if self.subscribed {
            Seq::empty()
        } else {
            let first = self.children@[0];
            let below = first.1.lemma_alive_holds();
            let path = seq![first.0@] + below;
            assert(path.skip(1) =~= below);
            path
        }
    }

    /// A filter ends at `path` below the level for `key` exactly where one
    /// ends at `key` and then `path` below the node.
    pub proof fn lemma_child_holds(&self, key: Segment, path: Path)
        requires
            self.wf(),
            self.has_key(key),
        ensures
            self.child(key).holds(path) <==> self.holds(seq![key] + path),
    {
        let whole = seq![key] + path;
        assert(whole.skip(1) =~= path);
        let at = self.key_index(key);
        if self.holds(whole) {
            let i = choose|i: int|
                0 <= i < self.children@.len() && (#[trigger] self.children@[i]).0@ == whole[0]
                    && self.children@[i].1.holds(whole.skip(1));
            assert(i == at);
        }
    }

    /// Where the filters that begin with `at` are those that end at or below
    /// the node, a topic matches at the node exactly where it matches the
    /// filters from `at` on.
    pub proof fn lemma_matches_filters(&self, filters: Set<Path>, at: Path, rest: Path)
        requires
            self.wf(),
            forall|path: Path| filters.contains(#[trigger] (at + path)) <==> self.holds(path),
        ensures
            self.matches(rest) == filters_match(filters, at, rest),
        decreases rest.len(),
    {
        self.lemma_key_continues(filters, at, multi_level());
        self.lemma_key_continues(filters, at, single_level());
        assert(filters.contains(at) <==> self.subscribed) by {
            assert(at + Seq::<Segment>::empty() =~= at);
        }
        if rest.len() > 0 {
            self.lemma_key_continues(filters, at, rest[0]);
            if !self.has_key(multi_level()) {
                let key = if self.has_key(single_level()) {
                    single_level()
                } else {
                    rest[0]
                };
                if self.has_key(key) {
                    let at_child = self.key_index(key);
                    assert forall|path: Path| filters.contains(#[trigger] (at.push(key) + path))
                        <==> self.child(key).holds(path) by {
                        assert(at.push(key) + path =~= at + (seq![key] + path));
                        self.lemma_child_holds(key, path);
                    }
                    self.child(key).lemma_matches_filters(filters, at.push(key), rest.skip(1));
                }
            }
        }
    }

    /// The node has a level below for `key` exactly where a filter goes on
    /// with `key` behind `at`.
    pub proof fn lemma_key_continues(&self, filters: Set<Path>, at: Path, key: Segment)
        requires
            self.wf(),
            forall|path: Path| filters.contains(#[trigger] (at + path)) <==> self.holds(path),
        ensures
            self.has_key(key) <==> continues(filters, at.push(key)),
    {
        if self.has_key(key) {
            let below = self.child(key).lemma_alive_holds();
            self.lemma_child_holds(key, below);
            assert(at.push(key) + below =~= at + (seq![key] + below));
            assert(filters.contains(at.push(key) + below));
        }
        if continues(filters, at.push(key)) {
            let rest = choose|rest: Path| filters.contains(#[trigger] (at.push(key) + rest));
            let whole = seq![key] + rest;
            assert(at.push(key) + rest =~= at + whole);
            assert(self.holds(whole));
            let i = choose|i: int|
                0 <= i < self.children@.len() && (#[trigger] self.children@[i]).0@ == whole[0]
                    && self.children@[i].1.holds(whole.skip(1));
            assert(self.children@[i].0@ == key);
        }
    }
}

/// The subscription trie: a set of topic filters, held level by level.
pub struct Trie {
    root: TrieNode,
}

impl Trie {
    /// The trie is in order: no two levels below a node have the same
    /// segment, and no branch ends in a node at which no filter ends.
    pub closed spec fn wf(&self) -> bool {
        self.root.wf() && !self.root.subscribed
    }

    /// The filters that the trie holds, each as its levels.
    pub closed spec fn filters(&self) -> Set<Path> {
        Set::new(|path: Path| self.root.holds(path))
    }

    /// A trie without filters.
    pub fn new() -> (trie: Trie)
        ensures
            trie.wf(),
            trie.filters() == Set::<Path>::empty(),
    {
        let trie = Trie { root: TrieNode::new(false) };
        assert(trie.filters() =~= Set::<Path>::empty());
        trie
    }

    /// Puts the filter into the trie. The filter is taken as it is: its levels
    /// are compared as text.
    pub fn insert(&mut self, topic: &str)
        requires
            old(self).wf(),
        ensures
            final(self).wf(),
            final(self).filters() == old(self).filters().insert(split_topic(topic@)),
    {
        let levels = split(topic);
        assert(path_view(levels@).skip(0) == path_view(levels@));
        self.root.insert_at(&levels, 0);
        assert(self.filters() =~= old(self).filters().insert(split_topic(topic@)));
    }

    /// Takes the filter out of the trie, where the trie holds it, and with it
    /// every level that no filter needs any more.
    pub fn delete(&mut self, topic: &str)
        requires
            old(self).wf(),
        ensures
            final(self).wf(),
            final(self).filters() == old(self).filters().remove(split_topic(topic@)),
    {
        let levels = split(topic);
        assert(path_view(levels@).skip(0) == path_view(levels@));
        self.root.delete_at(&levels, 0);
        assert(self.filters() =~= old(self).filters().remove(split_topic(topic@)));
    }

    /// Tells whether the topic matches one of the filters.
    pub fn contains(&self, topic: &str) -> (found: bool)
        requires
            self.wf(),
        ensures
            found == filters_match(self.filters(), Seq::empty(), split_topic(topic@)),
    {
        proof {
            assert forall|path: Path|
                self.filters().contains(#[trigger] (Seq::<Segment>::empty() + path))
                    <==> self.root.holds(path) by {
                assert(Seq::<Segment>::empty() + path =~= path);
            }
            self.root.lemma_matches_filters(
                self.filters(),
                Seq::empty(),
                split_topic(topic@),
            );
        }
        match_topic(&self.root, topic)
    }
}

/// The paths of a list as sequences of levels.
pub open spec fn paths_view(list: Seq<Vec<Vec<char>>>) -> Seq<Path> {
    list.map_values(|path: Vec<Vec<char>>| path_view(path@))
}

/// The path begins with the levels of `at`, and a filter ends at the rest of
/// it below `node`.
pub open spec fn ends_below(node: TrieNode, at: Path, path: Path) -> bool {
    path.len() >= at.len() && path.take(at.len() as int) == at && node.holds(
        path.skip(at.len() as int),
    )
}

/// From place `start` on, the list holds the filters that end at or below
/// `node`, each with the levels of `at` before it, and each once.
#[verifier::opaque]
pub open spec fn lists_below(node: TrieNode, at: Path, list: Seq<Path>, start: int) -> bool {
    &&& 0 <= start <= list.len()
    &&& forall|i: int| start <= i < list.len() ==> ends_below(node, at, #[trigger] list[i])
    &&& forall|rest: Path|
        node.holds(rest) ==> exists|i: int|
            start <= i < list.len() && #[trigger] list[i] == at + rest
    &&& forall|i: int, j: int|
        start <= i < j < list.len() ==> #[trigger] list[i] != #[trigger] list[j]
}

/// From place `start` on, the list holds the filter that ends at `node`, if
/// one does, and then those that end at or below the first `k` levels below
/// it, each with the levels of `at` before it, and each once.
#[verifier::opaque]
pub open spec fn lists_first(node: TrieNode, at: Path, k: int, list: Seq<Path>, start: int) -> bool {
    let first = start + if node.subscribed {
        1int
    } else {
        0
    };
    &&& 0 <= start <= first <= list.len()
    &&& node.subscribed ==> list[start] == at
    &&& forall|i: int| start <= i < list.len() ==> ends_below(node, at, #[trigger] list[i])
    &&& forall|i: int|
        first <= i < list.len() ==> (#[trigger] list[i]).len() > at.len() && exists|c: int|
            0 <= c < k && (#[trigger] node.children@[c]).0@ == list[i][at.len() as int]
    &&& forall|c: int, rest: Path|
        0 <= c < k && #[trigger] node.children@[c].1.holds(rest) ==> exists|i: int|
            first <= i < list.len() && #[trigger] list[i] == at.push(node.children@[c].0@) + rest
    &&& forall|i: int, j: int|
        start <= i < j < list.len() ==> #[trigger] list[i] != #[trigger] list[j]
}

/// A list that ends with the filter that ends at the node, if one does,
/// holds what is to be listed before the first level below.
proof fn lemma_lists_start(node: TrieNode, at: Path, list: Seq<Path>, start: int)
    requires
        0 <= start <= list.len(),
        list.len() == start + if node.subscribed { 1int } else { 0 },
        node.subscribed ==> list[start] == at,
    ensures
        lists_first(node, at, 0, list, start),
{
    reveal(lists_first);
    if node.subscribed {
        assert(at.take(at.len() as int) == at);
        assert(at.skip(at.len() as int) =~= Seq::<Segment>::empty());
    }
}

/// A list that holds what is to be listed for the first `k` levels below,
/// and then what is to be listed for the next level, holds what is to be
/// listed for the first `k + 1` levels.
proof fn lemma_lists_step(
    node: TrieNode,
    at: Path,
    k: int,
    entry: Seq<Path>,
    now: Seq<Path>,
    start: int,
)
    requires
        node.wf(),
        0 <= k < node.children@.len(),
        lists_first(node, at, k, entry, start),
        entry.len() <= now.len(),
        now.take(entry.len() as int) == entry,
        lists_below(node.children@[k].1, at.push(node.children@[k].0@), now, entry.len() as int),
    ensures
        lists_first(node, at, k + 1, now, start),
{
    reveal(lists_first);
    reveal(lists_below);
    let key = node.children@[k].0@;
    let mark = entry.len() as int;
    let n = at.len() as int;
    let first = start + if node.subscribed {
        1int
    } else {
        0
    };
    assert forall|i: int| 0 <= i < mark implies now[i] == entry[i] by {
        assert(now.take(mark)[i] == now[i]);
    }
    assert forall|i: int| mark <= i < now.len() implies ends_below(node, at, #[trigger] now[i])
        && now[i].len() > at.len() && now[i][n] == key by {
        let path = now[i];
        assert(ends_below(node.children@[k].1, at.push(key), path));
        assert(path.take(n + 1)[n] == key);
        assert(path.take(n) =~= path.take(n + 1).take(n));
        assert(at.push(key).take(n) =~= at);
        assert(path.skip(n).skip(1) =~= path.skip(n + 1));
        assert(path.skip(n)[0] == key);
        assert(node.children@[k].1.holds(path.skip(n).skip(1)));
        assert(node.holds(path.skip(n)));
    }
    assert forall|i: int| start <= i < now.len() implies ends_below(node, at, #[trigger] now[i]) by {
        if i < mark {
            assert(now[i] == entry[i]);
        }
    }
    assert forall|c: int, rest: Path|
        0 <= c < k + 1 && #[trigger] node.children@[c].1.holds(rest) implies exists|i: int|
        first <= i < now.len() && #[trigger] now[i] == at.push(node.children@[c].0@) + rest by {
        if c < k {
            let i = choose|i: int|
                first <= i < mark && #[trigger] entry[i] == at.push(node.children@[c].0@) + rest;
            assert(now[i] == entry[i]);
        } else {
            let i = choose|i: int| mark <= i < now.len() && #[trigger] now[i] == at.push(key) + rest;
            assert(now[i] == at.push(node.children@[c].0@) + rest);
        }
    }
    assert forall|i: int, j: int| start <= i < j < now.len() implies #[trigger] now[i]
        != #[trigger] now[j] by {
        if i < mark {
            assert(now[i] == entry[i]);
        }
        if j < mark {
            assert(now[j] == entry[j]);
        }
        if j >= mark && i < mark {
            if i >= first {
                let c = choose|c: int|
                    0 <= c < k && (#[trigger] node.children@[c]).0@ == entry[i][n];
                assert(node.children@[c].0@ != node.children@[k].0@);
            } else {
                assert(now[i] == at);
            }
        }
    }
    assert forall|i: int| first <= i < now.len() implies (#[trigger] now[i]).len() > at.len()
        && exists|c: int| 0 <= c < k + 1 && (#[trigger] node.children@[c]).0@ == now[i][n] by {
        if i < mark {
            assert(now[i] == entry[i]);
            let c = choose|c: int| 0 <= c < k && (#[trigger] node.children@[c]).0@ == entry[i][n];
            assert(node.children@[c].0@ == now[i][n]);
        } else {
            assert(node.children@[k].0@ == now[i][n]);
        }
    }
    if node.subscribed {
        assert(now[start] == entry[start]);
    }
}

/// A list that holds what is to be listed for all the levels below a node
/// holds the filters that end at or below the node.
proof fn lemma_lists_done(node: TrieNode, at: Path, list: Seq<Path>, start: int)
    requires
        lists_first(node, at, node.children@.len() as int, list, start),
    ensures
        lists_below(node, at, list, start),
{
    reveal(lists_first);
    reveal(lists_below);
    let first = start + if node.subscribed {
        1int
    } else {
        0
    };
    assert forall|rest: Path| node.holds(rest) implies exists|i: int|
        start <= i < list.len() && #[trigger] list[i] == at + rest by {
        if rest.len() == 0 {
            assert(at + rest =~= at);
            assert(list[start] == at + rest);
        } else {
            let c = choose|c: int|
                0 <= c < node.children@.len() && (#[trigger] node.children@[c]).0@ == rest[0]
                    && node.children@[c].1.holds(rest.skip(1));
            let i = choose|i: int|
                first <= i < list.len() && #[trigger] list[i] == at.push(node.children@[c].0@)
                    + rest.skip(1);
            assert(at.push(rest[0]) + rest.skip(1) =~= at + rest);
        }
    }
}

/// The first levels of the first levels of a list are the first levels of the list.
proof fn lemma_take_take(list: Seq<Path>, a: int, b: int)
    requires
        0 <= a <= b <= list.len(),
    ensures
        list.take(b).take(a) == list.take(a),
{
    assert(list.take(b).take(a) =~= list.take(a));
}

/// A copy of a path.
fn clone_path(path: &Vec<Vec<char>>) -> (copy: Vec<Vec<char>>)
    ensures
        path_view(copy@) == path_view(path@),
{
    let mut copy: Vec<Vec<char>> = Vec::new();
    let mut i: usize = 0;
    assert(path_view(copy@) =~= path_view(path@).take(0));
    while i < path.len()
        invariant
            i <= path@.len(),
            path_view(copy@) == path_view(path@).take(i as int),
        decreases path@.len() - i,
    {
        let ghost before = copy@;
        let level = path[i].clone();
        assert(level@ =~= path@[i as int]@);
        copy.push(level);
        i += 1;
        assert(copy@ == before.push(level));
        assert(path_view(copy@) =~= path_view(before).push(level@));
        assert(path_view(path@).take(i as int) =~= path_view(path@).take(i - 1).push(
            path@[i - 1]@,
        ));
    }
    assert(path_view(path@).take(path@.len() as int) == path_view(path@));
    copy
}

/// Puts behind `out` the filters that end at or below `node`, each with the
/// levels of `prefix` before it: first the one that ends at the node, then
/// those of each level below. Every such filter is put once.
pub fn print_trie_node(node: &TrieNode, prefix: &mut Vec<Vec<char>>, out: &mut Vec<Vec<Vec<char>>>)
    requires
        node.wf(),
    ensures
        path_view(final(prefix)@) == path_view(old(prefix)@),
        final(out)@.len() >= old(out)@.len(),
        paths_view(final(out)@).take(old(out)@.len() as int) == paths_view(old(out)@),
        lists_below(
            *node,
            path_view(old(prefix)@),
            paths_view(final(out)@),
            old(out)@.len() as int,
        ),
    decreases node,
{
    let ghost at = path_view(prefix@);
    let ghost start = out@.len() as int;
    let ghost before = paths_view(out@);
    if node.has_subscription() {
        let own = clone_path(prefix);
        out.push(own);
        assert(paths_view(out@) =~= before.push(at));
    }
    let mut k: usize = 0;
    proof {
        assert(paths_view(out@).take(start) =~= before);
        lemma_lists_start(*node, at, paths_view(out@), start);
    }
    while k < node.children.len()
        invariant
            k <= node.children@.len(),
            node.wf(),
            path_view(prefix@) == at,
            0 <= start <= out@.len(),
            paths_view(out@).take(start) == before,
            lists_first(*node, at, k as int, paths_view(out@), start),
        decreases node.children@.len() - k,
    {
        let ghost entry = paths_view(out@);
        let ghost entry_len = out@.len();
        let ghost key = node.children@[k as int].0@;
        let level = node.children[k].0.clone();
        assert(level@ =~= key);
        prefix.push(level);
        assert(path_view(prefix@) =~= at.push(key));
        print_trie_node(&node.children[k].1, prefix, out);
        let ghost back = prefix@;
        prefix.pop();
        proof {
            assert(path_view(prefix@) =~= path_view(back).drop_last());
            assert(at.push(key).drop_last() =~= at);
            let now = paths_view(out@);
            assert(entry.len() == entry_len);
            assert(now.len() == out@.len());
            lemma_take_take(now, start, entry.len() as int);
            lemma_lists_step(*node, at, k as int, entry, now, start);
        }
        k += 1;
    }
    proof {
        lemma_lists_done(*node, at, paths_view(out@), start);
    }
}

/// The filters that end at or below `node`, each once.
pub fn print_trie_nodes(node: &TrieNode) -> (list: Vec<Vec<Vec<char>>>)
    requires
        node.wf(),
    ensures
        forall|path: Path| paths_view(list@).contains(path) <==> node.holds(path),
        paths_view(list@).no_duplicates(),
{
    let mut list: Vec<Vec<Vec<char>>> = Vec::new();
    let mut prefix: Vec<Vec<char>> = Vec::new();
    print_trie_node(node, &mut prefix, &mut list);
    proof {
        reveal(lists_below);
        let all = paths_view(list@);
        let none = Seq::<Segment>::empty();
        assert(path_view(Seq::<Vec<char>>::empty()) =~= none);
        assert forall|path: Path| all.contains(path) <==> node.holds(path) by {
            if all.contains(path) {
                let i = choose|i: int| 0 <= i < all.len() && all[i] == path;
                assert(ends_below(*node, none, all[i]));
                assert(path.skip(0) =~= path);
            }
            if node.holds(path) {
                assert(none + path =~= path);
            }
        }
    }
    list
}

/// A topic from its levels: the levels with a separator between each two.
pub open spec fn join_levels(path: Path) -> Seq<char>
    decreases path.len(),
{
    if path.len() == 0 {
        Seq::empty()
    } else if path.len() == 1 {
        path[0]
    } else {
        join_levels(path.drop_last()).push('/') + path.last()
    }
}

/// A topic that is split into its levels and joined again is the topic: a
/// filter is listed as the text by which it was put in.
pub proof fn lemma_join_split(topic: Seq<char>)
    ensures
        join_levels(split_topic(topic)) == topic,
    decreases topic.len(),
{
    if topic.len() == 0 {
        assert(join_levels(split_topic(topic)) =~= topic);
    } else {
        let shorter = topic.drop_last();
        let c = topic.last();
        let before = split_topic(shorter);
        lemma_join_split(shorter);
        lemma_split_topic_len(shorter);
        assert(topic =~= shorter.push(c));
        if is_separator(c) {
            let now = before.push(Seq::empty());
            assert(now.drop_last() =~= before);
            vstd::utf8::char_u32_cast(c, 0x2fu32);
            vstd::utf8::char_u32_cast('/', 0x2fu32);
            assert(join_levels(now) =~= shorter.push('/'));
        } else {
            let now = before.drop_last().push(before.last().push(c));
            assert(now.drop_last() =~= before.drop_last());
            if before.len() == 1 {
                assert(join_levels(now) =~= shorter.push(c));
            } else {
                assert(join_levels(now) =~= (join_levels(before.drop_last()).push('/')
                    + before.last()).push(c));
            }
        }
    }
}

/// The text is one of the filters, written as a topic.
pub open spec fn is_line_of(filters: Set<Path>, text: Seq<char>) -> bool {
    exists|path: Path| filters.contains(path) && text == #[trigger] join_levels(path)
}

/// `String::push`: puts the character behind the text.
#[verifier::external_body]
fn string_push(text: &mut String, c: char)
    ensures
        final(text)@ == old(text)@.push(c),
{
    text.push(c);
}

/// The topic of the levels as text.
pub fn join(levels: &Vec<Vec<char>>) -> (topic: String)
    ensures
        topic@ == join_levels(path_view(levels@)),
{
    let mut topic = String::new();
    let ghost all = path_view(levels@);
    let mut i: usize = 0;
    assert(all.take(0) =~= Seq::<Segment>::empty());
    while i < levels.len()
        invariant
            i <= levels@.len(),
            all == path_view(levels@),
            topic@ == join_levels(all.take(i as int)),
        decreases levels@.len() - i,
    {
        if i > 0 {
            string_push(&mut topic, '/');
        }
        let ghost with_separator = topic@;
        let level = &levels[i];
        let mut j: usize = 0;
        while j < level.len()
            invariant
                j <= level@.len(),
                topic@ == with_separator + level@.take(j as int),
            decreases level@.len() - j,
        {
            string_push(&mut topic, level[j]);
            j += 1;
            assert(topic@ =~= with_separator + level@.take(j as int));
        }
        proof {
            assert(level@.take(level@.len() as int) == level@);
            let next = all.take(i + 1);
            assert(next.drop_last() =~= all.take(i as int));
            assert(next.last() == level@);
            if i == 0 {
                assert(topic@ =~= level@);
            }
        }
        i += 1;
    }
    assert(all.take(levels@.len() as int) == all);
    topic
}

impl Trie {
    /// The filters of the trie, each once, each as its levels.
    pub fn entries(&self) -> (list: Vec<Vec<Vec<char>>>)
        requires
            self.wf(),
        ensures
            forall|path: Path| paths_view(list@).contains(path) <==> self.filters().contains(path),
            paths_view(list@).no_duplicates(),
            self.filters().finite(),
            list@.len() == self.filters().len(),
    {
        let list = print_trie_nodes(&self.root);
        proof {
            let all = paths_view(list@);
            assert(all.to_set() =~= self.filters());
            vstd::seq_lib::seq_to_set_is_finite(all);
            all.unique_seq_to_set();
        }
        list
    }

    /// The number of filters that the trie holds.
    pub fn number_of_entries(&self) -> (n: usize)
        requires
            self.wf(),
        ensures
            self.filters().finite(),
            n == self.filters().len(),
    {
        let list = self.entries();
        list.len()
    }

    /// The filters of the trie as text, one line for each, ready to be printed.
    pub fn print_entries(&self) -> (lines: Vec<String>)
        requires
            self.wf(),
        ensures
            lines@.len() == self.filters().len(),
            forall|i: int|
                0 <= i < lines@.len() ==> is_line_of(self.filters(), (#[trigger] lines@[i])@),
            forall|path: Path|
                self.filters().contains(path) ==> exists|i: int|
                    0 <= i < lines@.len() && (#[trigger] lines@[i])@ == join_levels(path),
    {
        let list = self.entries();
        let ghost all = paths_view(list@);
        let mut lines: Vec<String> = Vec::new();
        let mut i: usize = 0;
        while i < list.len()
            invariant
                i <= list@.len(),
                lines@.len() == i,
                all == paths_view(list@),
                forall|k: int| 0 <= k < i ==> (#[trigger] lines@[k])@ == join_levels(all[k]),
            decreases list@.len() - i,
        {
            let line = join(&list[i]);
            lines.push(line);
            i += 1;
        }
        proof {
            assert forall|k: int| 0 <= k < lines@.len() implies is_line_of(
                self.filters(),
                (#[trigger] lines@[k])@,
            ) by {
                assert(all.contains(all[k]));
                assert(self.filters().contains(all[k]));
            }
            assert forall|path: Path| self.filters().contains(path) implies exists|k: int|
                0 <= k < lines@.len() && (#[trigger] lines@[k])@ == join_levels(path) by {
                assert(all.contains(path));
                let k = choose|k: int| 0 <= k < all.len() && all[k] == path;
                assert(lines@[k]@ == join_levels(path));
            }
        }
        lines
    }
}

} // verus!
