//! The server's registry of handshaken clients, keyed by the client's key name.
//! Times are milliseconds since the Unix epoch, supplied by the caller.

use vstd::prelude::*;

verus! {

/// One handshaken client: when it was first and last seen, and the key it shares with the server.
#[derive(Debug)]
pub struct Client {
    pub first_seen: u64,
    pub last_seen: u64,
    pub shared_key: Vec<u8>,
}

/// The later of two times.
pub open spec fn later(a: u64, b: u64) -> u64 {
    if b > a {
        b
    } else {
        a
    }
}

/// The mathematical value of a client session.
pub struct ClientView {
    pub first_seen: u64,
    pub last_seen: u64,
    pub shared_key: Seq<u8>,
}

impl View for Client {
    type V = ClientView;

    open spec fn view(&self) -> ClientView {
        ClientView { first_seen: self.first_seen, last_seen: self.last_seen, shared_key: self.shared_key@ }
    }
}

impl Client {
    /// A client first seen now, with the key derived in its handshake.
    pub fn new(shared_key: Vec<u8>, now: u64) -> (r: Client)
        ensures
            r@ == (ClientView { first_seen: now, last_seen: now, shared_key: shared_key@ }),
    {
        Client { first_seen: now, last_seen: now, shared_key }
    }

    /// Record that the client was seen now; a clock that went back leaves the time as it was.
    pub fn bump_last_seen(&mut self, now: u64)
        ensures
            final(self)@ == (ClientView { last_seen: later(old(self)@.last_seen, now), ..old(self)@ }),
    {
        if now > self.last_seen {
            self.last_seen = now;
        }
    }
}

/// The registry of connected clients, each under the key name it handshook with.
pub struct Clients {
    client_map: Vec<(String, Client)>,
    contents: Ghost<Map<Seq<char>, ClientView>>,
}

impl View for Clients {
    type V = Map<Seq<char>, ClientView>;

    closed spec fn view(&self) -> Map<Seq<char>, ClientView> {
        self.contents@
    }
}

impl Clients {
    /// The entries hold each name once and are exactly what the view maps.
    pub closed spec fn wf(&self) -> bool {
        let e = self.client_map@;
        &&& forall|i: int, j: int|
            0 <= i < j < e.len() ==> (#[trigger] e[i]).0@ != (#[trigger] e[j]).0@
        &&& forall|i: int|
            0 <= i < e.len() ==> self.contents@.contains_key((#[trigger] e[i]).0@)
                && self.contents@[e[i].0@] == e[i].1@
        &&& forall|k: Seq<char>|
            #[trigger] self.contents@.contains_key(k) ==> exists|i: int|
                0 <= i < e.len() && (#[trigger] e[i]).0@ == k
    }

    /// An empty registry.
    pub fn new() -> (r: Clients)
        ensures
            r.wf(),
            r@ == Map::<Seq<char>, ClientView>::empty(),
    {
        Clients { client_map: Vec::new(), contents: Ghost(Map::empty()) }
    }

    /// The index of the entry for `client_id`.
    fn find(&self, client_id: &String) -> (r: Option<usize>)
        requires
            self.wf(),
        ensures
            match r {
                Some(i) => i < self.client_map@.len() && self.client_map@[i as int].0@ == client_id@,
                None => !self@.contains_key(client_id@),
            },
    {
        let mut i: usize = 0;
        while i < self.client_map.len()
            invariant
                self.wf(),
                i <= self.client_map@.len(),
                forall|j: int| 0 <= j < i ==> (#[trigger] self.client_map@[j]).0@ != client_id@,
            decreases self.client_map@.len() - i,
        {
            if self.client_map[i].0 == *client_id {
                return Some(i);
            }
            i = i + 1;
        }
        None
    }

    /// Add a client under its key name, replacing any earlier session of that name.
    pub fn add(&mut self, client_id: String, client: Client)
        requires
            old(self).wf(),
        ensures
            final(self).wf(),
            final(self)@ == old(self)@.insert(client_id@, client@),
    {
        let ghost id = client_id@;
        let ghost cv = client@;
        let ghost new_map = self.contents@.insert(id, cv);
        match self.find(&client_id) {
            Some(i) => {
                self.client_map.set(i, (client_id, client));
                self.contents = Ghost(new_map);
                proof {
                    let e = self.client_map@;
                    assert forall|k: Seq<char>| #[trigger] new_map.contains_key(k) implies exists|j: int|
                        0 <= j < e.len() && (#[trigger] e[j]).0@ == k by {
                        if k != id {
                            let j = choose|j: int| 0 <= j < old(self).client_map@.len() && (#[trigger] old(self).client_map@[j]).0@ == k;
                            assert(e[j].0@ == k);
                        } else {
                            assert(e[i as int].0@ == k);
                        }
                    }
                }
            },
            None => {
                self.client_map.push((client_id, client));
                self.contents = Ghost(new_map);
                proof {
                    let e = self.client_map@;
                    let n = e.len() - 1;
                    assert forall|k: Seq<char>| #[trigger] new_map.contains_key(k) implies exists|j: int|
                        0 <= j < e.len() && (#[trigger] e[j]).0@ == k by {
                        if k != id {
                            let j = choose|j: int| 0 <= j < old(self).client_map@.len() && (#[trigger] old(self).client_map@[j]).0@ == k;
                            assert(e[j].0@ == k);
                        } else {
                            assert(e[n].0@ == k);
                        }
                    }
                    assert forall|a: int, b: int| 0 <= a < b < e.len() implies (#[trigger] e[a]).0@ != (#[trigger] e[b]).0@ by {
                        if b == n {
                            assert(old(self)@.contains_key(e[a].0@));
                        }
                    }
                }
            },
        }
    }

    /// Whether a client has handshaken under this key name.
    pub fn client_is_connected(&self, client_id: &String) -> (r: bool)
        requires
            self.wf(),
        ensures
            r == self@.contains_key(client_id@),
    {
        match self.find(client_id) {
            Some(i) => {
                proof {
                    assert(self@.contains_key(self.client_map@[i as int].0@));
                }
                true
            },
            None => false,
        }
    }

    /// Record that the client under this key name was seen now (never moving its last-seen
    /// time back); an unknown name is an error and changes nothing.
    pub fn bump_last_seen(&mut self, client_id: &String, now: u64) -> (r: Result<(), ()>)
        requires
            old(self).wf(),
        ensures
            final(self).wf(),
            r is Ok <==> old(self)@.contains_key(client_id@),
            r is Ok ==> final(self)@ == old(self)@.insert(
                client_id@,
                ClientView { last_seen: later(old(self)@[client_id@].last_seen, now), ..old(self)@[client_id@] },
            ),
            r is Err ==> final(self)@ == old(self)@,
    {
        match self.find(client_id) {
            None => Err(()),
            Some(i) => {
                let ghost id = client_id@;
                let key = self.client_map[i].0.clone();
                let first_seen = self.client_map[i].1.first_seen;
                let previous = self.client_map[i].1.last_seen;
                let seen = if now > previous {
                    now
                } else {
                    previous
                };
                let shared_key = vstd::slice::slice_to_vec(self.client_map[i].1.shared_key.as_slice());
                proof {
                    assert(self@.contains_key(id) && self@[id] == self.client_map@[i as int].1@);
                }
                let ghost new_map = self.contents@.insert(id, ClientView { last_seen: seen, ..self.contents@[id] });
                proof {
                    assert(self@.contains_key(id));
                }
                self.client_map.set(i, (key, Client { first_seen, last_seen: seen, shared_key }));
                self.contents = Ghost(new_map);
                proof {
                    let e = self.client_map@;
                    assert forall|k: Seq<char>| #[trigger] new_map.contains_key(k) implies exists|j: int|
                        0 <= j < e.len() && (#[trigger] e[j]).0@ == k by {
                        if k != id {
                            let j = choose|j: int| 0 <= j < old(self).client_map@.len() && (#[trigger] old(self).client_map@[j]).0@ == k;
                            assert(e[j].0@ == k);
                        } else {
                            assert(e[i as int].0@ == k);
                        }
                    }
                }
                Ok(())
            },
        }
    }

    /// The session under this key name, if there is one.
    pub fn get(&self, client_id: &String) -> (r: Option<&Client>)
        requires
            self.wf(),
        ensures
            r is Some <==> self@.contains_key(client_id@),
            r is Some ==> r->0@ == self@[client_id@],
    {
        match self.find(client_id) {
            None => None,
            Some(i) => {
                proof {
                    assert(self@.contains_key(self.client_map@[i as int].0@));
                }
                Some(&self.client_map[i].1)
            },
        }
    }

    /// The key shared with the client under this key name, if it has handshaken.
    pub fn get_shared_key(&self, client_id: &String) -> (r: Option<&Vec<u8>>)
        requires
            self.wf(),
        ensures
            r is Some <==> self@.contains_key(client_id@),
            r is Some ==> r->0@ == self@[client_id@].shared_key,
    {
        match self.find(client_id) {
            None => None,
            Some(i) => {
                proof {
                    assert(self@.contains_key(self.client_map@[i as int].0@));
                }
                Some(&self.client_map[i].1.shared_key)
            },
        }
    }
}

} // verus!
