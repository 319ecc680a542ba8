//! Topics: which ones may be published to, which filters may be subscribed
//! to, and the matcher that holds the subscriptions.

use vstd::prelude::*;
use vstd::utf8::*;
use crate::errors::{PublishTopicValidationError, SubscribeTopicValidationError};
use crate::trie::{
    filters_match, is_line_of, is_separator, join_levels, split_topic, Path, Trie,
};

verus! {

/// The longest topic, in bytes.
pub const MAX_TOPIC_LEN: usize = 65535;

/// The wildcard for any one level.
pub open spec fn is_single_level(c: char) -> bool {
    c as u32 == 0x2b
}

/// The wildcard for all levels from its own on.
pub open spec fn is_multi_level(c: char) -> bool {
    c as u32 == 0x23
}

/// Why a topic may not be published to, if it may not: it is longer than
/// 65535 bytes, or it holds a wildcard.
pub open spec fn publish_topic_error(topic: Seq<char>) -> Option<PublishTopicValidationError> {
    if encode_utf8(topic).len() > MAX_TOPIC_LEN {
        Some(PublishTopicValidationError::TopicLenTooLong)
    } else if exists|i: int|
        0 <= i < topic.len() && (is_single_level(#[trigger] topic[i]) || is_multi_level(topic[i])) {
        Some(PublishTopicValidationError::InvalidTopic)
    } else {
        None
    }
}

/// The characters of a text.
fn chars_of(text: &str) -> (chars: Vec<char>)
    ensures
        chars@ == text@,
{
    broadcast use vstd::string::axiom_spec_iter;

    let mut chars: Vec<char> = Vec::new();
    for c in it: text.chars()
        invariant
            it.seq() == text@,
            chars@ == text@.take(it.index()),
    {
        chars.push(c);
    }
    assert(text@.take(text@.len() as int) == text@);
    chars
}

/// Checks a topic that is to be published to.
pub fn validate_publish_topic(topic: &str) -> (r: Result<(), PublishTopicValidationError>)
    ensures
        r == match publish_topic_error(topic@) {
            Some(e) => Err::<(), PublishTopicValidationError>(e),
            None => Ok(()),
        },
{
    if topic.as_bytes().len() > MAX_TOPIC_LEN {
        return Err(PublishTopicValidationError::TopicLenTooLong);
    }
    let chars = chars_of(topic);
    let mut i: usize = 0;
    while i < chars.len()
        invariant
            i <= chars@.len(),
            chars@ == topic@,
            encode_utf8(topic@).len() <= MAX_TOPIC_LEN,
            forall|j: int|
                0 <= j < i ==> !(is_single_level(#[trigger] chars@[j]) || is_multi_level(chars@[j])),
        decreases chars@.len() - i,
    {
        let code = chars[i] as u32;
        if code == 0x23 || code == 0x2b {
            assert(is_single_level(topic@[i as int]) || is_multi_level(topic@[i as int]));
            return Err(PublishTopicValidationError::InvalidTopic);
        }
        i += 1;
    }
    Ok(())
}

/// The character at place `i` of a filter may stand there. A single-level
/// wildcard must fill its level: it stands at the start or behind a separator,
/// and at the end or before a separator. A multi-level wildcard must begin a
/// level and be the last character. Any other character may stand anywhere.
pub open spec fn wildcard_in_place(topic: Seq<char>, i: int) -> bool {
    let begins_level = i == 0 || is_separator(topic[i - 1]);
    if is_single_level(topic[i]) {
        begins_level && (i == topic.len() - 1 || is_separator(topic[i + 1]))
    } else if is_multi_level(topic[i]) {
        begins_level && i == topic.len() - 1
    } else {
        true
    }
}

/// The character at place `i` is the first of the filter that may not stand
/// where it stands.
pub open spec fn first_misplaced(topic: Seq<char>, i: int) -> bool {
    &&& 0 <= i < topic.len()
    &&& !wildcard_in_place(topic, i)
    &&& forall|j: int| 0 <= j < i ==> wildcard_in_place(topic, j)
}

/// The outcome of the check of a filter: it passes where the filter is not
/// empty, has at most 65535 bytes and every wildcard in its place; else the
/// failure is, in this order, that it is empty, that it is too long, or the
/// first wildcard that is out of place.
pub open spec fn subscribe_topic_checked(
    topic: Seq<char>,
    r: Result<(), SubscribeTopicValidationError>,
) -> bool {
    match r {
        Ok(_) => topic.len() > 0 && encode_utf8(topic).len() <= MAX_TOPIC_LEN && forall|i: int|
            0 <= i < topic.len() ==> wildcard_in_place(topic, i),
        Err(SubscribeTopicValidationError::EmptySubscriptionTopic) => topic.len() == 0,
        Err(SubscribeTopicValidationError::TopicLenTooLong) => topic.len() > 0 && encode_utf8(
            topic,
        ).len() > MAX_TOPIC_LEN,
        Err(SubscribeTopicValidationError::InvalidTopic(c)) => topic.len() > 0 && encode_utf8(
            topic,
        ).len() <= MAX_TOPIC_LEN && exists|i: int| #[trigger]
            first_misplaced(topic, i) && topic[i] == c,
    }
}

/// Checks a topic filter that is to be subscribed to.
pub fn validate_subscribe_topic(topic: &str) -> (r: Result<(), SubscribeTopicValidationError>)
    ensures
        subscribe_topic_checked(topic@, r),
{
    if topic.is_empty() {
        return Err(SubscribeTopicValidationError::EmptySubscriptionTopic);
    }
    if topic.as_bytes().len() > MAX_TOPIC_LEN {
        return Err(SubscribeTopicValidationError::TopicLenTooLong);
    }
    let chars = chars_of(topic);
    let topic_len = chars.len();
    let mut i: usize = 0;
    while i < topic_len
        invariant
            i <= topic_len,
            topic_len == chars@.len(),
            chars@ == topic@,
            topic@.len() > 0,
            encode_utf8(topic@).len() <= MAX_TOPIC_LEN,
            forall|j: int| 0 <= j < i ==> wildcard_in_place(chars@, j),
        decreases topic_len - i,
    {
        let c = chars[i];
        let code = c as u32;
        let begins_level = i == 0 || chars[i - 1] as u32 == 0x2f;
        if code == 0x2b {
            if !begins_level || (i < topic_len - 1 && chars[i + 1] as u32 != 0x2f) {
                assert(first_misplaced(chars@, i as int));
                return Err(SubscribeTopicValidationError::InvalidTopic(c));
            }
        } else if code == 0x23 {
            if !begins_level || i < topic_len - 1 {
                assert(first_misplaced(chars@, i as int));
                return Err(SubscribeTopicValidationError::InvalidTopic(c));
            }
        }
        i += 1;
    }
    Ok(())
}

/// The subscriptions of a broker, and the matching of topics against them.
pub struct TopicMatcher {
    trie: Trie,
}

impl TopicMatcher {
    /// The matcher is in order.
    pub closed spec fn wf(&self) -> bool {
        self.trie.wf()
    }

    /// The filters that are subscribed to, each as its levels.
    pub closed spec fn subscriptions(&self) -> Set<Path> {
        self.trie.filters()
    }

    /// A matcher without subscriptions.
    pub fn new() -> (matcher: Self)
        ensures
            matcher.wf(),
            matcher.subscriptions() == Set::<Path>::empty(),
    {
        Self { trie: Trie::new() }
    }

    /// Checks the filter and, where it passes, adds it to the subscriptions.
    pub fn subscribe(&mut self, topic: &str) -> (r: Result<(), SubscribeTopicValidationError>)
        requires
            old(self).wf(),
        ensures
            final(self).wf(),
            subscribe_topic_checked(topic@, r),
            final(self).subscriptions() == if r is Ok {
                old(self).subscriptions().insert(split_topic(topic@))
            } else {
                old(self).subscriptions()
            },
    {
        let result = validate_subscribe_topic(topic);
        match result {
            Ok(_v) => {
                self.trie.insert(topic);
                Ok(())
            },
            Err(e) => Err(e),
        }
    }

    /// Takes the filter out of the subscriptions. The filter is taken by its
    /// text: a wildcard in it stands for itself.
    pub fn unsubscribe(&mut self, topic: &str)
        requires
            old(self).wf(),
        ensures
            final(self).wf(),
            final(self).subscriptions() == old(self).subscriptions().remove(split_topic(topic@)),
    {
        self.trie.delete(topic)
    }

    /// Tells whether the topic matches one of the subscriptions.
    pub fn match_topic(&self, topic: &str) -> (found: bool)
        requires
            self.wf(),
        ensures
            found == filters_match(self.subscriptions(), Seq::empty(), split_topic(topic@)),
    {
        self.trie.contains(topic)
    }

    /// The number of subscriptions.
    pub fn number_of_subscriptions(&self) -> (n: usize)
        requires
            self.wf(),
        ensures
            self.subscriptions().finite(),
            n == self.subscriptions().len(),
    {
        self.trie.number_of_entries()
    }

    /// The subscriptions as text, one line for each, ready to be printed.
    pub fn print_subscriptions(&self) -> (lines: Vec<String>)
        requires
            self.wf(),
        ensures
            lines@.len() == self.subscriptions().len(),
            forall|i: int|
                0 <= i < lines@.len() ==> is_line_of(self.subscriptions(), (#[trigger] lines@[i])@),
            forall|path: Path|
                self.subscriptions().contains(path) ==> exists|i: int|
                    0 <= i < lines@.len() && (#[trigger] lines@[i])@ == join_levels(path),
    {
        self.trie.print_entries()
    }
}

} // verus!
