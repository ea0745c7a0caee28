//! The clients of the web interface.
use crate::output::OutputData;
use crate::types::Timestamp;
use vstd::prelude::*;

verus! {

/// A request to register a client.
#[derive(Debug)]
pub struct RegisterRequest {}

/// The answer to a request to register.
#[derive(Debug)]
pub struct RegisterResponse {
    url: String,
}

impl RegisterResponse {
    /// The address at which the client can connect.
    pub closed spec fn address(&self) -> Seq<char> {
        self.url@
    }

    /// The answer to a client that was registered as `id`.
    pub fn new(id: &String) -> (response: Self)
        ensures
            response.address() == "ws://localhost:8088/ws/"@ + id@,
    {
        let mut url: String = "ws://localhost:8088/ws/".to_owned();
        url.append(id.as_str());
        RegisterResponse { url }
    }

    /// The address at which the client can connect.
    pub fn url(&self) -> (url: &String)
        ensures
            url@ == self.address(),
    {
        &self.url
    }
}

/// A result to publish, with its time.
#[derive(Debug)]
pub struct Event {
    /// The time of the result.
    pub timestamp: Timestamp,
    /// The result.
    pub data: OutputData,
}

/// A client. `S` is what sends messages to it.
#[derive(Clone, Debug)]
pub struct Client<S> {
    /// Sends to the client, once it is connected.
    pub sender: Option<S>,
}

/// A character of a number in base 16.
pub open spec fn is_hex(c: char) -> bool {
    '0' <= c <= '9' || 'a' <= c <= 'f'
}

/// A universally unique identifier of version 4 in its hyphenated form.
pub open spec fn is_uuid(id: Seq<char>) -> bool {
    &&& id.len() == 36
    &&& forall|i: int|
        0 <= i < 36 ==> if i == 8 || i == 13 || i == 18 || i == 23 {
            (#[trigger] id[i]) == '-'
        } else {
            is_hex(id[i])
        }
    &&& id[14] == '4'
    &&& id[19] == '8' || id[19] == '9' || id[19] == 'a' || id[19] == 'b'
}

/// `uuid::Uuid::new_v4`, shown by `to_string`: a random identifier in hyphenated form, in lower
/// case, with the digits that mark its version and variant. The other digits are up to chance.
/// The call panics where the operating system has no random bytes to give.
#[verifier::external_body]
pub(crate) fn random_id() -> (id: String)
    ensures
        is_uuid(id@),
{
    uuid::Uuid::new_v4().to_string()
}

/// Some draw of a random identifier gives `id`.
pub closed spec fn drawn(id: Seq<char>) -> bool {
    exists|given: String| given@ == id && #[trigger] call_ensures(random_id, (), given)
}

/// The identifiers that can be drawn are those that the random source gives.
pub(crate) proof fn law_drawn_at_random(given: String, id: Seq<char>)
    ensures
        call_ensures(random_id, (), given) ==> drawn(given@),
        drawn(id) ==> exists|source: String|
            source@ == id && #[trigger] call_ensures(random_id, (), source),
{
}

/// The clients that are registered, by their identifiers.
#[derive(Debug)]
pub struct Clients<S> {
    clients: Vec<(String, Client<S>)>,
}

impl<S> Clients<S> {
    /// No identifier occurs twice.
    pub closed spec fn wf(&self) -> bool {
        forall|i: int, j: int|
            0 <= i < j < self.clients@.len() ==> (#[trigger] self.clients@[i]).0@ != (
            #[trigger] self.clients@[j]).0@
    }

    /// The client that is registered as `id`.
    pub closed spec fn client(&self, id: Seq<char>) -> Option<Client<S>> {
        if self.has(id) {
            Some(self.clients@[self.place(id)].1)
        } else {
            None
        }
    }

    /// A client is registered as `id`.
    spec fn has(&self, id: Seq<char>) -> bool {
        exists|i: int| 0 <= i < self.clients@.len() && (#[trigger] self.clients@[i]).0@ == id
    }

    /// The place of the client that is registered as `id`.
    spec fn place(&self, id: Seq<char>) -> int {
        choose|i: int| 0 <= i < self.clients@.len() && (#[trigger] self.clients@[i]).0@ == id
    }

    /// The client at a place is the one that is registered under the identifier there.
    proof fn lemma_place(&self, at: int)
        requires
            self.wf(),
            0 <= at < self.clients@.len(),
        ensures
            self.client(self.clients@[at].0@) == Some(self.clients@[at].1),
    {
        let id = self.clients@[at].0@;
        assert(self.has(id));
        let i = self.place(id);
        assert(self.clients@[i].0@ == id);
        if i < at {
            assert(self.clients@[i].0@ != self.clients@[at].0@);
        } else if at < i {
            assert(self.clients@[at].0@ != self.clients@[i].0@);
        }
    }

    /// No client but the one that is registered as `id` differs from those in `earlier`.
    pub open spec fn others_kept(&self, earlier: &Self, id: Seq<char>) -> bool {
        forall|other: Seq<char>|
            other != id ==> #[trigger] self.client(other) == earlier.client(other)
    }

    /// No clients yet.
    pub fn new() -> (clients: Self)
        ensures
            clients.wf(),
            forall|id: Seq<char>| #[trigger] clients.client(id) is None,
    {
        Clients { clients: Vec::new() }
    }

    /// Unregister the client `id`, where there is one.
    pub fn remove(&mut self, id: &String) -> (removed: Option<Client<S>>)
        requires
            old(self).wf(),
        ensures
            final(self).wf(),
            removed == old(self).client(id@),
            final(self).client(id@) is None,
            final(self).others_kept(old(self), id@),
    {
        let ghost before = *self;
        let mut at: usize = 0;
        while at < self.clients.len()
            invariant
                at <= self.clients@.len(),
                before.wf(),
                before == *old(self),
                *self == before,
                forall|i: int| 0 <= i < at ==> (#[trigger] before.clients@[i]).0@ != id@,
            decreases self.clients@.len() - at,
        {
            if self.clients[at].0 == *id {
                let (_, client) = self.clients.remove(at);
                proof {
                    before.lemma_place(at as int);
                    let kept = self.clients@;
                    assert forall|i: int| 0 <= i < kept.len() implies #[trigger] kept[i]
                        == before.clients@[if i < at {
                        i
                    } else {
                        i + 1
                    }] by {}
                    assert(self.wf());
                    assert(!self.has(id@)) by {
                        if self.has(id@) {
                            let i = self.place(id@);
                            let from = if i < at {
                                i
                            } else {
                                i + 1
                            };
                            assert(kept[i] == before.clients@[from]);
                            assert(before.clients@[at as int].0@ == id@);
                        }
                    }
                    assert forall|other: Seq<char>| other != id@ implies #[trigger] self.client(
                        other,
                    ) == before.client(other) by {
                        if before.has(other) {
                            let from = before.place(other);
                            let i = if from < at {
                                from
                            } else {
                                from - 1
                            };
                            assert(kept[i] == before.clients@[from]);
                            self.lemma_place(i);
                            before.lemma_place(from);
                        } else if self.has(other) {
                            let i = self.place(other);
                            assert(kept[i].0@ == other);
                            assert(before.has(other));
                        }
                    }
                }
                return Some(client);
            }
            at += 1;
        }
        assert(!before.has(id@));
        None
    }

    /// Register `client` as `id`, in place of the client that is registered so.
    pub fn insert(&mut self, id: String, client: Client<S>)
        requires
            old(self).wf(),
        ensures
            final(self).wf(),
            final(self).client(id@) == Some(client),
            final(self).others_kept(old(self), id@),
    {
        let _ = self.remove(&id);
        let ghost before = *self;
        let ghost name = id@;
        self.clients.push((id, client));
        proof {
            let last = before.clients@.len() as int;
            assert forall|i: int, j: int| 0 <= i < j < self.clients@.len() implies (
            #[trigger] self.clients@[i]).0@ != (#[trigger] self.clients@[j]).0@ by {
                if j == last {
                    if before.clients@[i].0@ == name {
                        before.lemma_place(i);
                    }
                }
            }
            self.lemma_place(last);
            assert forall|other: Seq<char>| other != name implies #[trigger] self.client(other)
                == old(self).client(other) by {
                assert(before.client(other) == old(self).client(other));
                if before.has(other) {
                    let i = before.place(other);
                    assert(self.clients@[i] == before.clients@[i]);
                    self.lemma_place(i);
                } else if self.has(other) {
                    let i = self.place(other);
                    assert(self.clients@[i].0@ == other);
                    assert(before.clients@[i].0@ == other);
                }
            }
        }
    }

    /// Register a client that is not connected yet as `id`.
    pub fn register(&mut self, id: String) -> (response: RegisterResponse)
        requires
            old(self).wf(),
        ensures
            final(self).wf(),
            final(self).client(id@) == Some((Client { sender: None::<S> })),
            final(self).others_kept(old(self), id@),
            response.address() == "ws://localhost:8088/ws/"@ + id@,
    {
        let response = RegisterResponse::new(&id);
        self.insert(id, Client { sender: None });
        response
    }

    /// Register a client that is not connected yet under a random identifier.
    pub fn register_new(&mut self) -> (response: RegisterResponse)
        requires
            old(self).wf(),
        ensures
            final(self).wf(),
            exists|id: Seq<char>|
                {
                    &&& is_uuid(id)
                    &&& drawn(id)
                    &&& #[trigger] final(self).client(id) == Some((Client { sender: None::<S> }))
                    &&& final(self).others_kept(old(self), id)
                    &&& response.address() == "ws://localhost:8088/ws/"@ + id
                },
    {
        let id: String = random_id();
        assert(drawn(id@));
        self.register(id)
    }

    /// Connect a client through `sender`, under a random identifier.
    pub fn connect(&mut self, sender: S) -> (id: String)
        requires
            old(self).wf(),
        ensures
            final(self).wf(),
            is_uuid(id@),
            drawn(id@),
            final(self).client(id@) == Some((Client { sender: Some(sender) })),
            final(self).others_kept(old(self), id@),
    {
        let id: String = random_id();
        assert(drawn(id@));
        self.insert(id.clone(), Client { sender: Some(sender) });
        id
    }

    /// The senders of all clients that are connected, in any order.
    pub fn recipients(&self) -> (senders: Vec<&S>)
        requires
            self.wf(),
        ensures
            exists|ids: Seq<Seq<char>>| #[trigger] self.lists_recipients(ids, senders@),
    {
        let mut senders: Vec<&S> = Vec::new();
        let ghost mut ids: Seq<Seq<char>> = Seq::empty();
        let mut at: usize = 0;
        while at < self.clients.len()
            invariant
                at <= self.clients@.len(),
                self.wf(),
                ids.len() == senders@.len(),
                forall|k: int|
                    0 <= k < ids.len() ==> self.client(#[trigger] ids[k]) == Some(
                        (Client { sender: Some(*senders@[k]) }),
                    ),
                forall|k: int|
                    0 <= k < ids.len() ==> exists|i: int|
                        0 <= i < at && (#[trigger] self.clients@[i]).0@ == #[trigger] ids[k],
                ids.no_duplicates(),
                forall|i: int|
                    0 <= i < at && (#[trigger] self.clients@[i]).1.sender is Some ==> ids.contains(
                        self.clients@[i].0@,
                    ),
            decreases self.clients@.len() - at,
        {
            let ghost earlier = ids;
            let ghost id = self.clients@[at as int].0@;
            proof {
                self.lemma_place(at as int);
            }
            match &self.clients[at].1.sender {
                Some(sender) => {
                    senders.push(sender);
                    proof {
                        ids = ids.push(id);
                        assert forall|k: int| 0 <= k < earlier.len() implies earlier[k] != id by {
                            let i = choose|i: int|
                                0 <= i < at && (#[trigger] self.clients@[i]).0@ == earlier[k];
                            assert(self.clients@[i].0@ != self.clients@[at as int].0@);
                        }
                        assert(ids[earlier.len() as int] == id);
                        assert forall|i: int|
                            0 <= i < at + 1 && (#[trigger] self.clients@[i]).1.sender is Some implies
                            ids.contains(self.clients@[i].0@) by {
                            if i < at {
                                let k = earlier.index_of(self.clients@[i].0@);
                                assert(ids[k] == earlier[k]);
                            }
                        }
                    }
                },
                None => {},
            }
            at += 1;
        }
        proof {
            assert forall|id: Seq<char>|
                (#[trigger] self.client(id)) matches Some(client) && client.sender is Some implies
                ids.contains(id) by {
                let i = self.place(id);
                assert(self.clients@[i].0@ == id);
            }
            assert(self.lists_recipients(ids, senders@));
        }
        senders
    }

    /// `ids` lists the clients that are connected, each once, and `senders` what sends to them.
    pub open spec fn lists_recipients(&self, ids: Seq<Seq<char>>, senders: Seq<&S>) -> bool {
        &&& ids.no_duplicates()
        &&& ids.len() == senders.len()
        &&& forall|k: int|
            0 <= k < ids.len() ==> self.client(#[trigger] ids[k]) == Some(
                (Client { sender: Some(*senders[k]) }),
            )
        &&& forall|id: Seq<char>|
            (#[trigger] self.client(id)) matches Some(client) && client.sender is Some
                ==> ids.contains(id)
    }
}

} // verus!
