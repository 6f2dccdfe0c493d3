//! Topics and the registry that holds them.

use crate::protocol::command::{serialize_spec, Command, CommandView};
use crate::server::assoc::{
    assoc, lemma_assoc_entry, lemma_assoc_len, lemma_assoc_map_values, lemma_assoc_push,
    lemma_assoc_remove, lemma_assoc_update,
};
use vstd::prelude::*;

verus! {

/// The handle of an output sink: it names the connection that a message
/// is written to. The program that embeds the library owns the streams
/// and knows which stream a handle stands for.
#[derive(Clone, Copy, Debug, PartialEq, Eq, Hash, Structural)]
pub struct Sink {
    pub id: u64,
}

/// One subscriber of a topic: its key and the sink that its messages go to.
#[derive(Debug, Clone, PartialEq, Eq)]
pub struct Recipient {
    pub key: String,
    pub sink: Sink,
}

impl View for Recipient {
    type V = (Seq<char>, Sink);

    open spec fn view(&self) -> (Seq<char>, Sink) {
        (self.key@, self.sink)
    }
}

/// The subscribers of a topic: each key with its sink.
pub type Subscribers = Map<Seq<char>, Sink>;

/// The topics of a registry: each name with its subscribers.
pub type Registry = Map<Seq<char>, Subscribers>;

/// The keys of a list of subscribers, in the list's order.
pub open spec fn keys_of(list: Seq<Recipient>) -> Seq<Seq<char>> {
    Seq::new(list.len(), |i: int| list[i].key@)
}

/// The sinks of a list of subscribers, in the list's order.
spec fn sinks_of(list: Seq<Recipient>) -> Seq<Sink> {
    Seq::new(list.len(), |i: int| list[i].sink)
}

/// The list holds each subscriber of `subscribers` once, with its sink, and
/// nobody else.
pub open spec fn lists_exactly(list: Seq<Recipient>, subscribers: Subscribers) -> bool {
    &&& keys_of(list).no_duplicates()
    &&& forall|i: int|
        0 <= i < list.len() ==> subscribers.contains_pair(
            (#[trigger] list[i]).key@,
            list[i].sink,
        )
    &&& forall|key: Seq<char>| #[trigger]
        subscribers.contains_key(key) ==> keys_of(list).contains(key)
}

/// The subscribers of a list as a map from key to sink.
spec fn dict_of(list: Seq<Recipient>) -> Subscribers {
    assoc(keys_of(list), sinks_of(list))
}

/// What a subscription makes of the subscribers: a new entry, unless the
/// key has one already, which then stays as it is.
pub open spec fn subscribed(subscribers: Subscribers, key: Seq<char>, sink: Sink) -> Subscribers {
    if subscribers.contains_key(key) {
        subscribers
    } else {
        subscribers.insert(key, sink)
    }
}

/// What a rename makes of the subscribers: the entry of `old_key` moves to
/// `new_key` and replaces what stood there. Without an entry of `old_key`
/// nothing changes.
pub open spec fn renamed(
    subscribers: Subscribers,
    old_key: Seq<char>,
    new_key: Seq<char>,
) -> Subscribers {
    if subscribers.contains_key(old_key) {
        subscribers.remove(old_key).insert(new_key, subscribers[old_key])
    } else {
        subscribers
    }
}

/// The subscribers without those that write to `sink`.
pub open spec fn without_sink(subscribers: Subscribers, sink: Sink) -> Subscribers {
    Map::new(
        |key: Seq<char>| subscribers.contains_key(key) && subscribers[key] != sink,
        |key: Seq<char>| subscribers[key],
    )
}

/// In a list without a repeated key, each entry is found under its key.
proof fn lemma_dict_entry(list: Seq<Recipient>, i: int)
    requires
        keys_of(list).no_duplicates(),
        0 <= i < list.len(),
    ensures
        dict_of(list).contains_pair(list[i].key@, list[i].sink),
{
    lemma_assoc_entry(keys_of(list), sinks_of(list), i);
}

/// Appending a subscriber under a new key inserts it into the map.
proof fn lemma_dict_push(list: Seq<Recipient>, r: Recipient)
    requires
        keys_of(list).no_duplicates(),
        !keys_of(list).contains(r.key@),
    ensures
        keys_of(list.push(r)).no_duplicates(),
        dict_of(list.push(r)) == dict_of(list).insert(r.key@, r.sink),
{
    assert(keys_of(list.push(r)) =~= keys_of(list).push(r.key@));
    assert(sinks_of(list.push(r)) =~= sinks_of(list).push(r.sink));
    lemma_assoc_push(keys_of(list), sinks_of(list), r.key@, r.sink);
}

/// Taking a subscriber out of the list removes its key from the map.
proof fn lemma_dict_remove(list: Seq<Recipient>, i: int)
    requires
        keys_of(list).no_duplicates(),
        0 <= i < list.len(),
    ensures
        keys_of(list.remove(i)).no_duplicates(),
        dict_of(list.remove(i)) == dict_of(list).remove(list[i].key@),
{
    assert(keys_of(list.remove(i)) =~= keys_of(list).remove(i));
    assert(sinks_of(list.remove(i)) =~= sinks_of(list).remove(i));
    lemma_assoc_remove(keys_of(list), sinks_of(list), i);
}

/// Where `user_key` stands in `list`, if it does.
fn position(list: &Vec<Recipient>, user_key: &String) -> (found: Option<usize>)
    ensures
        match found {
            Some(i) => i < list@.len() && list@[i as int].key@ == user_key@,
            None => !keys_of(list@).contains(user_key@),
        },
{
    let mut i: usize = 0;
    while i < list.len()
        invariant
            i <= list@.len(),
            forall|j: int| 0 <= j < i ==> keys_of(list@)[j] != user_key@,
        decreases list@.len() - i,
    {
        if list[i].key == *user_key {
            return Some(i);
        }
        i += 1;
    }
    None
}

/// A topic: the subscribers of one named channel, each key with one sink.
pub struct Topic {
    subscribers: Vec<Recipient>,
}

impl View for Topic {
    type V = Subscribers;

    closed spec fn view(&self) -> Subscribers {
        dict_of(self.subscribers@)
    }
}

/// What to write, and to whom: the outcome of a publish. The caller writes
/// `payload` to each sink of `recipients`.
#[derive(Debug, Clone, PartialEq, Eq)]
pub struct Broadcast {
    pub payload: String,
    pub recipients: Vec<Recipient>,
}

impl Topic {
    /// No key is stored twice.
    #[verifier::type_invariant]
    spec fn unique_keys(&self) -> bool {
        keys_of(self.subscribers@).no_duplicates()
    }

    /// The subscriber keys, in the order in which [`Topic::subscribers`]
    /// lists them.
    pub closed spec fn keys(&self) -> Seq<Seq<char>> {
        keys_of(self.subscribers@)
    }

    /// The keys are those of the subscribers, and no others.
    pub proof fn lemma_keys_are_subscribed(&self)
        ensures
            forall|key: Seq<char>| self.keys().contains(key) <==> self@.contains_key(key),
    {
    }

    /// A topic without subscribers.
    pub fn new() -> (topic: Topic)
        ensures
            topic@ == Subscribers::empty(),
            topic.keys().no_duplicates(),
    {
        let topic = Topic { subscribers: Vec::new() };
        assert(topic@ =~= Subscribers::empty());
        topic
    }

    /// Moves the list of subscribers out, to be changed and put back.
    fn take(&mut self) -> (list: Vec<Recipient>)
        ensures
            list@ == old(self).subscribers@,
            keys_of(list@).no_duplicates(),
            dict_of(list@) == old(self)@,
    {
        proof {
            use_type_invariant(&*self);
        }
        let mut list: Vec<Recipient> = Vec::new();
        core::mem::swap(&mut self.subscribers, &mut list);
        list
    }

    /// The number of subscribers.
    pub fn len(&self) -> (n: usize)
        ensures
            n == self@.dom().len(),
            self@.dom().finite(),
    {
        proof {
            use_type_invariant(self);
            lemma_assoc_len(keys_of(self.subscribers@), sinks_of(self.subscribers@));
        }
        self.subscribers.len()
    }

    /// The sink that `user_key` is subscribed with, if it is subscribed.
    pub fn sink_of(&self, user_key: &str) -> (sink: Option<Sink>)
        ensures
            sink == if self@.contains_key(user_key@) {
                Some(self@[user_key@])
            } else {
                None
            },
    {
        let key = user_key.to_owned();
        match position(&self.subscribers, &key) {
            Some(i) => {
                proof {
                    use_type_invariant(self);
                    lemma_dict_entry(self.subscribers@, i as int);
                }
                Some(self.subscribers[i].sink)
            },
            None => None,
        }
    }

    /// The subscribers, each with its key and sink. No key comes twice.
    pub fn subscribers(&self) -> (list: Vec<Recipient>)
        ensures
            lists_exactly(list@, self@),
            keys_of(list@) == self.keys(),
            self.keys().no_duplicates(),
    {
        let mut list: Vec<Recipient> = Vec::new();
        let mut i: usize = 0;
        while i < self.subscribers.len()
            invariant
                i <= self.subscribers@.len(),
                list@.len() == i,
                forall|j: int| 0 <= j < i ==> (#[trigger] list@[j])@ == self.subscribers@[j]@,
            decreases self.subscribers@.len() - i,
        {
            let entry = &self.subscribers[i];
            list.push(Recipient { key: entry.key.clone(), sink: entry.sink });
            i += 1;
        }
        proof {
            use_type_invariant(self);
            assert(keys_of(list@) =~= keys_of(self.subscribers@)) by {
                assert forall|j: int| 0 <= j < list@.len() implies keys_of(list@)[j] == keys_of(
                    self.subscribers@,
                )[j] by {
                    assert(list@[j]@ == self.subscribers@[j]@);
                }
            }
            assert forall|j: int| 0 <= j < list@.len() implies self@.contains_pair(
                (#[trigger] list@[j]).key@,
                list@[j].sink,
            ) by {
                assert(list@[j]@ == self.subscribers@[j]@);
                lemma_dict_entry(self.subscribers@, j);
            }
        }
        list
    }

    /// Subscribes this user to this topic. A key that is subscribed already
    /// keeps the sink it has, and `sink` is not used.
    pub fn subscribe(&mut self, user_key: String, sink: Sink)
        ensures
            final(self)@ == subscribed(old(self)@, user_key@, sink),
            final(self).keys().no_duplicates(),
    {
        let mut list = self.take();
        match position(&list, &user_key) {
            Some(i) => {
                assert(keys_of(list@)[i as int] == user_key@);
            },
            None => {
                let entry = Recipient { key: user_key, sink };
                proof {
                    lemma_dict_push(list@, entry);
                }
                list.push(entry);
            },
        }
        self.subscribers = list;
    }

    /// Unsubscribes this user from this topic. Nothing changes where the
    /// key is not subscribed.
    pub fn unsubscribe(&mut self, user_key: String)
        ensures
            final(self)@ == old(self)@.remove(user_key@),
            final(self).keys().no_duplicates(),
    {
        let mut list = self.take();
        match position(&list, &user_key) {
            Some(i) => {
                proof {
                    lemma_dict_remove(list@, i as int);
                }
                list.remove(i);
            },
            None => {
                assert(dict_of(list@) =~= dict_of(list@).remove(user_key@));
            },
        }
        self.subscribers = list;
    }

    /// Publishes this message to this topic: it is to be written, as it is,
    /// to the sink of every subscriber.
    pub fn publish(&self, message: String) -> (out: Broadcast)
        ensures
            out.payload@ == message@,
            lists_exactly(out.recipients@, self@),
    {
        Broadcast { payload: message, recipients: self.subscribers() }
    }

    /// Renames this user key: its sink is from now on found under
    /// `new_user_key`, in place of whatever was subscribed under that key.
    /// Nothing changes where `old_user_key` is not subscribed.
    pub fn rename_user_key(&mut self, old_user_key: String, new_user_key: String)
        ensures
            final(self)@ == renamed(old(self)@, old_user_key@, new_user_key@),
            final(self).keys().no_duplicates(),
    {
        let mut list = self.take();
        if let Some(i) = position(&list, &old_user_key) {
            proof {
                lemma_dict_entry(list@, i as int);
                lemma_dict_remove(list@, i as int);
            }
            let moved = list.remove(i);
            let ghost reduced = dict_of(list@);
            if let Some(j) = position(&list, &new_user_key) {
                proof {
                    lemma_dict_remove(list@, j as int);
                }
                list.remove(j);
                assert(!dict_of(list@).contains_key(new_user_key@));
            } else {
                assert(reduced =~= reduced.remove(new_user_key@));
            }
            let entry = Recipient { key: new_user_key, sink: moved.sink };
            proof {
                lemma_dict_push(list@, entry);
                assert(reduced.remove(new_user_key@).insert(new_user_key@, moved.sink)
                    =~= reduced.insert(new_user_key@, moved.sink));
            }
            list.push(entry);
        }
        self.subscribers = list;
    }

    /// Deletes this user key.
    pub fn delete_user_key(&mut self, user_key: String)
        ensures
            final(self)@ == old(self)@.remove(user_key@),
            final(self).keys().no_duplicates(),
    {
        self.unsubscribe(user_key)
    }

    /// Takes out every subscriber that writes to `sink`: what follows a
    /// failed write, since the connection behind the sink is taken for dead.
    pub fn drop_sink(&mut self, sink: Sink)
        ensures
            final(self)@ == without_sink(old(self)@, sink),
            final(self).keys().no_duplicates(),
    {
        let mut list = self.take();
        let mut i: usize = 0;
        while i < list.len()
            invariant
                i <= list@.len(),
                keys_of(list@).no_duplicates(),
                without_sink(dict_of(list@), sink) == without_sink(old(self)@, sink),
                forall|j: int| 0 <= j < i ==> (#[trigger] list@[j]).sink != sink,
            decreases list@.len() - i,
        {
            if list[i].sink == sink {
                proof {
                    lemma_dict_entry(list@, i as int);
                    lemma_dict_remove(list@, i as int);
                    assert(without_sink(dict_of(list@).remove(list@[i as int].key@), sink)
                        =~= without_sink(dict_of(list@), sink));
                }
                list.remove(i);
            } else {
                i += 1;
            }
        }
        proof {
            assert forall|key: Seq<char>| dict_of(list@).contains_key(key) implies dict_of(
                list@,
            )[key] != sink by {
                let j = keys_of(list@).index_of(key);
                lemma_dict_entry(list@, j);
            }
            assert(dict_of(list@) =~= without_sink(dict_of(list@), sink));
        }
        self.subscribers = list;
    }
}

/// The subscribers of `topic` in a registry; none where it has no such
/// topic.
pub open spec fn subscribers_of(registry: Registry, topic: Seq<char>) -> Subscribers {
    if registry.contains_key(topic) {
        registry[topic]
    } else {
        Subscribers::empty()
    }
}

/// A registry after a subscription: the topic now exists, and the key is
/// subscribed to it as [`subscribed`] says.
pub open spec fn registry_subscribed(
    registry: Registry,
    topic: Seq<char>,
    key: Seq<char>,
    sink: Sink,
) -> Registry {
    registry.insert(topic, subscribed(subscribers_of(registry, topic), key, sink))
}

/// A registry after `key` has left `topic`. An unknown topic changes
/// nothing.
pub open spec fn registry_unsubscribed(
    registry: Registry,
    topic: Seq<char>,
    key: Seq<char>,
) -> Registry {
    if registry.contains_key(topic) {
        registry.insert(topic, registry[topic].remove(key))
    } else {
        registry
    }
}

/// A registry after a rename: every topic has the key renamed.
pub open spec fn registry_renamed(
    registry: Registry,
    old_key: Seq<char>,
    new_key: Seq<char>,
) -> Registry {
    registry.map_values(|subscribers: Subscribers| renamed(subscribers, old_key, new_key))
}

/// A registry after a key has been deleted: no topic holds it any more.
pub open spec fn registry_deleted(registry: Registry, key: Seq<char>) -> Registry {
    registry.map_values(|subscribers: Subscribers| subscribers.remove(key))
}

/// A registry after `topic` has lost the subscribers that write to `sink`.
/// An unknown topic changes nothing.
pub open spec fn registry_without_sink(
    registry: Registry,
    topic: Seq<char>,
    sink: Sink,
) -> Registry {
    if registry.contains_key(topic) {
        registry.insert(topic, without_sink(registry[topic], sink))
    } else {
        registry
    }
}

/// A topic under its name.
struct Channel {
    name: String,
    topic: Topic,
}

/// The names of a list of channels, in the list's order.
spec fn names_of(list: Seq<Channel>) -> Seq<Seq<char>> {
    Seq::new(list.len(), |i: int| list[i].name@)
}

/// The subscribers of each channel of a list, in the list's order.
spec fn views_of(list: Seq<Channel>) -> Seq<Subscribers> {
    Seq::new(list.len(), |i: int| list[i].topic@)
}

/// A list of channels as a registry.
spec fn registry_of(list: Seq<Channel>) -> Registry {
    assoc(names_of(list), views_of(list))
}

/// In a list without a repeated name, each channel is found under its name.
proof fn lemma_registry_entry(list: Seq<Channel>, i: int)
    requires
        names_of(list).no_duplicates(),
        0 <= i < list.len(),
    ensures
        registry_of(list).contains_pair(list[i].name@, list[i].topic@),
{
    lemma_assoc_entry(names_of(list), views_of(list), i);
}

/// Where `name` stands in `list`, if it does.
fn channel_position(list: &Vec<Channel>, name: &String) -> (found: Option<usize>)
    ensures
        match found {
            Some(i) => i < list@.len() && list@[i as int].name@ == name@,
            None => !names_of(list@).contains(name@),
        },
{
    let mut i: usize = 0;
    while i < list.len()
        invariant
            i <= list@.len(),
            forall|j: int| 0 <= j < i ==> names_of(list@)[j] != name@,
        decreases list@.len() - i,
    {
        if list[i].name == *name {
            return Some(i);
        }
        i += 1;
    }
    None
}

/// The registry: every topic of the broker under its name. A topic comes
/// into being with its first subscription and stays from then on.
pub struct Topics {
    channels: Vec<Channel>,
}

impl View for Topics {
    type V = Registry;

    closed spec fn view(&self) -> Registry {
        registry_of(self.channels@)
    }
}

impl Topics {
    /// No name is stored twice.
    #[verifier::type_invariant]
    spec fn unique_names(&self) -> bool {
        names_of(self.channels@).no_duplicates()
    }

    /// A registry without topics.
    pub fn new() -> (topics: Topics)
        ensures
            topics@ == Registry::empty(),
    {
        let topics = Topics { channels: Vec::new() };
        assert(topics@ =~= Registry::empty());
        topics
    }

    /// Moves the list of channels out, to be changed and put back.
    fn take(&mut self) -> (list: Vec<Channel>)
        ensures
            list@ == old(self).channels@,
            names_of(list@).no_duplicates(),
            registry_of(list@) == old(self)@,
    {
        proof {
            use_type_invariant(&*self);
        }
        let mut list: Vec<Channel> = Vec::new();
        core::mem::swap(&mut self.channels, &mut list);
        list
    }

    /// The number of topics.
    pub fn len(&self) -> (n: usize)
        ensures
            n == self@.dom().len(),
            self@.dom().finite(),
    {
        proof {
            use_type_invariant(self);
            lemma_assoc_len(names_of(self.channels@), views_of(self.channels@));
        }
        self.channels.len()
    }

    /// The topic of this name, if there is one.
    pub fn topic(&self, topic_key: &str) -> (found: Option<&Topic>)
        ensures
            match found {
                Some(topic) => self@.contains_pair(topic_key@, topic@)
                    && topic.keys().no_duplicates(),
                None => !self@.contains_key(topic_key@),
            },
    {
        let name = topic_key.to_owned();
        match channel_position(&self.channels, &name) {
            Some(i) => {
                let topic = &self.channels[i].topic;
                proof {
                    use_type_invariant(self);
                    use_type_invariant(topic);
                    lemma_registry_entry(self.channels@, i as int);
                }
                Some(topic)
            },
            None => None,
        }
    }

    /// Subscribes this user to this topic. The topic is created if it is
    /// not there yet.
    pub fn subscribe(&mut self, topic_key: String, user_key: String, sink: Sink)
        ensures
            final(self)@ == registry_subscribed(old(self)@, topic_key@, user_key@, sink),
    {
        let mut list = self.take();
        match channel_position(&list, &topic_key) {
            Some(i) => {
                let ghost before = list@;
                list[i].topic.subscribe(user_key, sink);
                proof {
                    lemma_registry_entry(before, i as int);
                    assert(names_of(list@) =~= names_of(before));
                    assert(views_of(list@) =~= views_of(before).update(
                        i as int,
                        list@[i as int].topic@,
                    ));
                    lemma_assoc_update(
                        names_of(before),
                        views_of(before),
                        i as int,
                        list@[i as int].topic@,
                    );
                }
            },
            None => {
                let mut topic = Topic::new();
                topic.subscribe(user_key, sink);
                let channel = Channel { name: topic_key, topic };
                proof {
                    assert(names_of(list@.push(channel)) =~= names_of(list@).push(channel.name@));
                    assert(views_of(list@.push(channel)) =~= views_of(list@).push(channel.topic@));
                    lemma_assoc_push(
                        names_of(list@),
                        views_of(list@),
                        channel.name@,
                        channel.topic@,
                    );
                }
                list.push(channel);
            },
        }
        self.channels = list;
    }

    /// Unsubscribes this user from this topic. An unknown topic or key
    /// changes nothing.
    pub fn unsubscribe(&mut self, topic_key: String, user_key: String)
        ensures
            final(self)@ == registry_unsubscribed(old(self)@, topic_key@, user_key@),
            !old(self)@.contains_key(topic_key@) || !old(self)@[topic_key@].contains_key(user_key@)
                ==> final(self)@ == old(self)@,
    {
        let mut list = self.take();
        if let Some(i) = channel_position(&list, &topic_key) {
            let ghost before = list@;
            list[i].topic.unsubscribe(user_key);
            proof {
                lemma_registry_entry(before, i as int);
                assert(names_of(list@) =~= names_of(before));
                assert(views_of(list@) =~= views_of(before).update(
                    i as int,
                    list@[i as int].topic@,
                ));
                lemma_assoc_update(
                    names_of(before),
                    views_of(before),
                    i as int,
                    list@[i as int].topic@,
                );
            }
        }
        proof {
            if !old(self)@.contains_key(topic_key@) || !old(self)@[topic_key@].contains_key(
                user_key@,
            ) {
                lemma_unsubscribe_unknown(old(self)@, topic_key@, user_key@);
            }
        }
        self.channels = list;
    }

    /// Publishes this message: where the topic exists, the message goes out
    /// to each of its subscribers as an `m` line that names the topic and
    /// the publishing user. On an unknown topic nothing is to be written.
    pub fn publish(&self, topic_key: String, user_key: String, message: String) -> (out: Option<
        Broadcast,
    >)
        ensures
            match out {
                Some(broadcast) => {
                    &&& self@.contains_key(topic_key@)
                    &&& broadcast.payload@ == serialize_spec(
                        CommandView::Message(topic_key@, user_key@, message@),
                    )
                    &&& lists_exactly(broadcast.recipients@, self@[topic_key@])
                },
                None => !self@.contains_key(topic_key@),
            },
    {
        match channel_position(&self.channels, &topic_key) {
            Some(i) => {
                proof {
                    use_type_invariant(self);
                    lemma_registry_entry(self.channels@, i as int);
                }
                let command = Command::Message(topic_key, user_key, message);
                Some(self.channels[i].topic.publish(command.serialize()))
            },
            None => None,
        }
    }

    /// Renames this user key in every topic.
    pub fn rename_user_key(&mut self, old_user_key: String, new_user_key: String)
        ensures
            final(self)@ == registry_renamed(old(self)@, old_user_key@, new_user_key@),
    {
        let mut list = self.take();
        let ghost before = list@;
        let ghost f = |subscribers: Subscribers| renamed(subscribers, old_user_key@, new_user_key@);
        let mut i: usize = 0;
        while i < list.len()
            invariant
                i <= list@.len(),
                list@.len() == before.len(),
                names_of(list@) == names_of(before),
                f == |subscribers: Subscribers| renamed(subscribers, old_user_key@, new_user_key@),
                forall|j: int| 0 <= j < i ==> (#[trigger] list@[j]).topic@ == f(before[j].topic@),
                forall|j: int| i <= j < list@.len() ==> (#[trigger] list@[j]).topic@ == before[j].topic@,
            decreases list@.len() - i,
        {
            let ghost step = list@;
            list[i].topic.rename_user_key(old_user_key.clone(), new_user_key.clone());
            proof {
                assert(names_of(list@) =~= names_of(step));
            }
            i += 1;
        }
        proof {
            assert(views_of(list@) =~= views_of(before).map_values(f));
            lemma_assoc_map_values(names_of(before), views_of(before), f);
            assert(registry_of(list@) =~= registry_renamed(
                old(self)@,
                old_user_key@,
                new_user_key@,
            ));
        }
        self.channels = list;
    }

    /// Deletes this user key from every topic.
    pub fn delete_user_key(&mut self, user_key: String)
        ensures
            final(self)@ == registry_deleted(old(self)@, user_key@),
            forall|topic: Seq<char>| #[trigger]
                final(self)@.contains_key(topic) ==> !final(self)@[topic].contains_key(user_key@),
    {
        let mut list = self.take();
        let ghost before = list@;
        let ghost f = |subscribers: Subscribers| subscribers.remove(user_key@);
        let mut i: usize = 0;
        while i < list.len()
            invariant
                i <= list@.len(),
                list@.len() == before.len(),
                names_of(list@) == names_of(before),
                f == |subscribers: Subscribers| subscribers.remove(user_key@),
                forall|j: int| 0 <= j < i ==> (#[trigger] list@[j]).topic@ == f(before[j].topic@),
                forall|j: int| i <= j < list@.len() ==> (#[trigger] list@[j]).topic@ == before[j].topic@,
            decreases list@.len() - i,
        {
            let ghost step = list@;
            list[i].topic.delete_user_key(user_key.clone());
            proof {
                assert(names_of(list@) =~= names_of(step));
            }
            i += 1;
        }
        proof {
            assert(views_of(list@) =~= views_of(before).map_values(f));
            lemma_assoc_map_values(names_of(before), views_of(before), f);
            assert(registry_of(list@) =~= registry_deleted(old(self)@, user_key@));
        }
        self.channels = list;
    }

    /// Takes out of this topic every subscriber that writes to `sink`. This
    /// is the answer to a write that failed: the sink's connection is taken
    /// for dead. An unknown topic changes nothing.
    pub fn drop_sink(&mut self, topic_key: String, sink: Sink)
        ensures
            final(self)@ == registry_without_sink(old(self)@, topic_key@, sink),
    {
        let mut list = self.take();
        if let Some(i) = channel_position(&list, &topic_key) {
            let ghost before = list@;
            list[i].topic.drop_sink(sink);
            proof {
                lemma_registry_entry(before, i as int);
                assert(names_of(list@) =~= names_of(before));
                assert(views_of(list@) =~= views_of(before).update(
                    i as int,
                    list@[i as int].topic@,
                ));
                lemma_assoc_update(
                    names_of(before),
                    views_of(before),
                    i as int,
                    list@[i as int].topic@,
                );
            }
        }
        self.channels = list;
    }
}

/// Unsubscribing from an unknown topic, or a key that is not subscribed to
/// the topic, leaves the registry as it is.
pub proof fn lemma_unsubscribe_unknown(registry: Registry, topic: Seq<char>, key: Seq<char>)
    requires
        !registry.contains_key(topic) || !registry[topic].contains_key(key),
    ensures
        registry_unsubscribed(registry, topic, key) == registry,
{
    if registry.contains_key(topic) {
        assert(registry[topic].remove(key) =~= registry[topic]);
        assert(registry.insert(topic, registry[topic]) =~= registry);
    }
}

/// Unsubscribing a second time changes nothing more.
pub proof fn lemma_unsubscribe_idempotent(registry: Registry, topic: Seq<char>, key: Seq<char>)
    ensures
        registry_unsubscribed(registry_unsubscribed(registry, topic, key), topic, key)
            == registry_unsubscribed(registry, topic, key),
{
    let once = registry_unsubscribed(registry, topic, key);
    if once.contains_key(topic) {
        assert(!once[topic].contains_key(key));
    }
    lemma_unsubscribe_unknown(once, topic, key);
}

/// A list that holds exactly the subscribers of a topic has one entry for
/// each of them: as many writes go out as the topic has subscribers, and
/// every subscriber's sink is among them.
pub proof fn lemma_fan_out_reaches_each_subscriber(list: Seq<Recipient>, subscribers: Subscribers)
    requires
        lists_exactly(list, subscribers),
    ensures
        subscribers.dom().finite(),
        list.len() == subscribers.dom().len(),
        forall|key: Seq<char>| #[trigger]
            subscribers.contains_key(key) ==> exists|i: int|
                0 <= i < list.len() && (#[trigger] list[i])@ == (key, subscribers[key]),
{
    let keys = keys_of(list);
    keys.unique_seq_to_set();
    assert forall|key: Seq<char>| keys.to_set().contains(key) implies subscribers.dom().contains(
        key,
    ) by {
        let i = keys.index_of(key);
        assert(subscribers.contains_pair(list[i].key@, list[i].sink));
    }
    assert(keys.to_set() =~= subscribers.dom());
    assert forall|key: Seq<char>| #[trigger] subscribers.contains_key(key) implies exists|i: int|
        0 <= i < list.len() && (#[trigger] list[i])@ == (key, subscribers[key]) by {
        let i = keys.index_of(key);
        assert(subscribers.contains_pair(list[i].key@, list[i].sink));
        assert(list[i]@ == (key, subscribers[key]));
    }
}

/// A rename reaches every topic at once. No topic comes or goes; wherever
/// the old key was subscribed, its sink is now found under the new key and
/// no longer under the old one; a topic without the old key is unchanged.
pub proof fn lemma_rename_reaches_every_topic(
    registry: Registry,
    old_key: Seq<char>,
    new_key: Seq<char>,
)
    ensures
        registry_renamed(registry, old_key, new_key).dom() == registry.dom(),
        forall|topic: Seq<char>| #[trigger]
            registry.contains_key(topic) ==> {
                let before = registry[topic];
                let after = registry_renamed(registry, old_key, new_key)[topic];
                if before.contains_key(old_key) {
                    &&& after.contains_pair(new_key, before[old_key])
                    &&& old_key != new_key ==> !after.contains_key(old_key)
                    &&& forall|key: Seq<char>|
                        key != old_key && key != new_key ==> if before.contains_key(key) {
                            after.contains_pair(key, before[key])
                        } else {
                            !after.contains_key(key)
                        }
                } else {
                    after == before
                }
            },
{
    assert(registry_renamed(registry, old_key, new_key).dom() =~= registry.dom());
}

/// After a key has been deleted, no topic holds it; the topics stay, and
/// every other subscriber stays as it was.
pub proof fn lemma_delete_reaches_every_topic(registry: Registry, key: Seq<char>)
    ensures
        registry_deleted(registry, key).dom() == registry.dom(),
        forall|topic: Seq<char>| #[trigger]
            registry.contains_key(topic) ==> registry_deleted(registry, key)[topic]
                == registry[topic].remove(key),
{
    assert(registry_deleted(registry, key).dom() =~= registry.dom());
}

/// Topics are never destroyed: whatever is done to the registry, every topic
/// that was there before is there afterwards, with or without subscribers.
pub proof fn lemma_topics_persist(
    registry: Registry,
    topic: Seq<char>,
    key: Seq<char>,
    other_key: Seq<char>,
    sink: Sink,
)
    ensures
        registry.dom().subset_of(registry_subscribed(registry, topic, key, sink).dom()),
        registry_subscribed(registry, topic, key, sink).contains_key(topic),
        registry_unsubscribed(registry, topic, key).dom() == registry.dom(),
        registry_renamed(registry, key, other_key).dom() == registry.dom(),
        registry_deleted(registry, key).dom() == registry.dom(),
        registry_without_sink(registry, topic, sink).dom() == registry.dom(),
{
    assert(registry_unsubscribed(registry, topic, key).dom() =~= registry.dom());
    assert(registry_renamed(registry, key, other_key).dom() =~= registry.dom());
    assert(registry_deleted(registry, key).dom() =~= registry.dom());
    assert(registry_without_sink(registry, topic, sink).dom() =~= registry.dom());
}

/// Some topic of the registry has a subscriber that writes to `sink`.
pub open spec fn holds_sink(registry: Registry, sink: Sink) -> bool {
    exists|topic: Seq<char>, key: Seq<char>|
        registry.contains_key(topic) && #[trigger] registry[topic].contains_pair(key, sink)
}

/// Every subscriber that writes to `sink` is subscribed under `key`.
pub open spec fn sink_only_under(registry: Registry, sink: Sink, key: Seq<char>) -> bool {
    forall|topic: Seq<char>, other: Seq<char>|
        registry.contains_key(topic) && #[trigger] registry[topic].contains_pair(other, sink)
            ==> other == key
}

/// Where a sink is subscribed under one key only, deleting that key leaves
/// no topic that would still write to the sink.
pub proof fn lemma_delete_leaves_no_stale_sink(registry: Registry, sink: Sink, key: Seq<char>)
    requires
        sink_only_under(registry, sink, key),
    ensures
        !holds_sink(registry_deleted(registry, key), sink),
{
    let after = registry_deleted(registry, key);
    assert forall|topic: Seq<char>, other: Seq<char>| after.contains_key(topic) implies !(
    #[trigger] after[topic].contains_pair(other, sink)) by {
        if after[topic].contains_pair(other, sink) {
            assert(registry[topic].contains_pair(other, sink));
        }
    }
}

} // verus!
