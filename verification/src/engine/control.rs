use vstd::prelude::*;
use crate::message::{find_id, first_with_id, Message, Value};
use crate::text::{ascii_chars, ascii_string};

verus! {

/// Why the engine refused a control request.
#[derive(Debug, Clone, Copy, PartialEq, Eq, Structural)]
pub enum EngineError {
    /// Start while running.
    AlreadyRunning,
    /// A request that needs the engine running.
    NotRunning,
}

/// What the engine reads of a manifest: its script and how many connections it configures.
pub struct ManifestInfo {
    pub lua_script: Option<String>,
    pub config_count: usize,
}

/// The engine's own state, owned by its command loop.
pub struct EngineControl {
    pub running: bool,
    pub lua_enabled: bool,
    /// The script of the stored manifest.
    pub lua_script: Option<String>,
    /// Connections configured by the stored manifest.
    pub config_count: usize,
    /// Connection tasks running.
    pub connection_count: usize,
    /// The id the next repeating batch gets.
    pub next_batch_id: u64,
    /// Repeating batches running.
    pub batches: Vec<u64>,
}

/// What a successful start does: open this many connections and load this script.
pub struct StartPlan {
    pub connections: usize,
    pub lua_code: String,
}

/// The script to load: the stored one when scripting is enabled, else none.
pub open spec fn lua_code_of(enabled: bool, script: Option<String>) -> Seq<char> {
    if enabled {
        match script {
            Some(s) => s@,
            None => Seq::empty(),
        }
    } else {
        Seq::empty()
    }
}

/// The batches of `s` that are not in `ids`.
pub open spec fn batches_kept(s: Seq<u64>, ids: Seq<u64>) -> Seq<u64> {
    s.filter(|b: u64| !ids.contains(b))
}

/// The batches of `s` that are in `ids`.
pub open spec fn batches_taken(s: Seq<u64>, ids: Seq<u64>) -> Seq<u64> {
    s.filter(|b: u64| ids.contains(b))
}

fn contains_u64(v: &Vec<u64>, x: u64) -> (r: bool)
    ensures
        r == v@.contains(x),
{
    let mut i: usize = 0;
    while i < v.len()
        invariant
            i <= v@.len(),
            forall|j: int| 0 <= j < i ==> v@[j] != x,
        decreases v.len() - i,
    {
        if v[i] == x {
            assert(v@[i as int] == x);
            return true;
        }
        i = i + 1;
    }
    false
}

fn string_copy(s: &String) -> (r: String)
    ensures
        r@ == s@,
{
    s.clone()
}

/// The script to load now.
fn lua_code(enabled: bool, script: &Option<String>) -> (r: String)
    ensures
        r@ == lua_code_of(enabled, *script),
{
    if enabled {
        match script {
            Some(s) => string_copy(s),
            None => String::new(),
        }
    } else {
        String::new()
    }
}

impl EngineControl {
    /// A stopped engine on `manifest`, with `default_script` when it has none.
    pub fn new(manifest: ManifestInfo, default_script: String) -> (c: EngineControl)
        ensures
            !c.running,
            c.lua_enabled,
            c.lua_script == (match manifest.lua_script { Some(s) => Some(s), None => Some(default_script) }),
            c.config_count == manifest.config_count,
            c.connection_count == 0,
            c.next_batch_id == 1,
            c.batches@.len() == 0,
    {
        let script = match manifest.lua_script {
            Some(s) => Some(s),
            None => Some(default_script),
        };
        EngineControl {
            running: false,
            lua_enabled: true,
            lua_script: script,
            config_count: manifest.config_count,
            connection_count: 0,
            next_batch_id: 1,
            batches: Vec::new(),
        }
    }

    /// Replaces the stored manifest; nothing is restarted.
    pub fn set_manifest(&mut self, manifest: ManifestInfo)
        ensures
            *final(self) == (EngineControl { lua_script: manifest.lua_script, config_count: manifest.config_count, ..*old(self) }),
    {
        self.lua_script = manifest.lua_script;
        self.config_count = manifest.config_count;
    }

    /// Starts the engine, first storing `manifest` when one is given: refused while running;
    /// otherwise one connection per configuration and the stored script (when enabled).
    pub fn start(&mut self, manifest: Option<ManifestInfo>) -> (r: Result<StartPlan, EngineError>)
        ensures
            ({
                let (script, count) = match manifest {
                    Some(m) => (m.lua_script, m.config_count),
                    None => (old(self).lua_script, old(self).config_count),
                };
                &&& final(self).lua_script == script
                &&& final(self).config_count == count
                &&& final(self).lua_enabled == old(self).lua_enabled
                &&& final(self).next_batch_id == old(self).next_batch_id
                &&& final(self).batches@ == old(self).batches@
                &&& if old(self).running {
                    r == Err::<StartPlan, EngineError>(EngineError::AlreadyRunning) && final(self).running
                        && final(self).connection_count == old(self).connection_count
                } else {
                    &&& final(self).running
                    &&& final(self).connection_count == count
                    &&& r matches Ok(plan) && plan.connections == count
                        && plan.lua_code@ == lua_code_of(old(self).lua_enabled, script)
                }
            }),
    {
        match manifest {
            Some(m) => {
                self.lua_script = m.lua_script;
                self.config_count = m.config_count;
            },
            None => {},
        }
        if self.running {
            return Err(EngineError::AlreadyRunning);
        }
        self.running = true;
        self.connection_count = self.config_count;
        let code = lua_code(self.lua_enabled, &self.lua_script);
        Ok(StartPlan { connections: self.config_count, lua_code: code })
    }

    /// Stops the engine: no connections, no repeating batches (their ids are returned to be
    /// cancelled).
    pub fn stop(&mut self) -> (aborted: Vec<u64>)
        ensures
            aborted@ == old(self).batches@,
            !final(self).running,
            final(self).connection_count == 0,
            final(self).batches@.len() == 0,
            final(self).lua_script == old(self).lua_script,
            final(self).config_count == old(self).config_count,
            final(self).lua_enabled == old(self).lua_enabled,
            final(self).next_batch_id == old(self).next_batch_id,
    {
        self.running = false;
        self.connection_count = 0;
        let mut aborted: Vec<u64> = Vec::new();
        std::mem::swap(&mut aborted, &mut self.batches);
        aborted
    }

    /// Starts a repeating batch and gives its id; refused when the engine is not running.
    pub fn start_batch(&mut self) -> (r: Result<u64, EngineError>)
        ensures
            !old(self).running ==> r == Err::<u64, EngineError>(EngineError::NotRunning) && *final(self) == *old(self),
            old(self).running ==> {
                &&& r == Ok::<u64, EngineError>(old(self).next_batch_id)
                &&& final(self).batches@ == old(self).batches@.push(old(self).next_batch_id)
                &&& final(self).next_batch_id == (if old(self).next_batch_id == u64::MAX { 0 } else { old(self).next_batch_id + 1 })
                &&& final(self).running == old(self).running
                &&& final(self).connection_count == old(self).connection_count
                &&& final(self).lua_script == old(self).lua_script
                &&& final(self).config_count == old(self).config_count
                &&& final(self).lua_enabled == old(self).lua_enabled
            },
    {
        if !self.running {
            return Err(EngineError::NotRunning);
        }
        let id = self.next_batch_id;
        self.next_batch_id = id.wrapping_add(1);
        self.batches.push(id);
        Ok(id)
    }

    /// Stops the batches in `ids`, or all of them when `ids` is empty; returns the ids to
    /// cancel.
    pub fn stop_batches(&mut self, ids: &Vec<u64>) -> (stopped: Vec<u64>)
        ensures
            ids@.len() == 0 ==> stopped@ == old(self).batches@ && final(self).batches@.len() == 0,
            ids@.len() > 0 ==> stopped@ == batches_taken(old(self).batches@, ids@)
                && final(self).batches@ == batches_kept(old(self).batches@, ids@),
            final(self).running == old(self).running,
            final(self).connection_count == old(self).connection_count,
            final(self).lua_script == old(self).lua_script,
            final(self).config_count == old(self).config_count,
            final(self).lua_enabled == old(self).lua_enabled,
            final(self).next_batch_id == old(self).next_batch_id,
    {
        if ids.len() == 0 {
            let mut every: Vec<u64> = Vec::new();
            std::mem::swap(&mut every, &mut self.batches);
            return every;
        }
        let mut all: Vec<u64> = Vec::new();
        std::mem::swap(&mut all, &mut self.batches);
        let mut kept: Vec<u64> = Vec::new();
        let mut taken: Vec<u64> = Vec::new();
        let mut i: usize = 0;
        let ghost keep_f = |b: u64| !ids@.contains(b);
        let ghost take_f = |b: u64| ids@.contains(b);
        proof {
            reveal(Seq::filter);
            assert(all@.take(0).filter(keep_f) =~= Seq::<u64>::empty());
            assert(all@.take(0).filter(take_f) =~= Seq::<u64>::empty());
        }
        while i < all.len()
            invariant
                i <= all@.len(),
                keep_f == (|b: u64| !ids@.contains(b)),
                take_f == (|b: u64| ids@.contains(b)),
                kept@ == all@.take(i as int).filter(keep_f),
                taken@ == all@.take(i as int).filter(take_f),
            decreases all.len() - i,
        {
            let b = all[i];
            proof {
                reveal(Seq::filter);
                assert(all@.take(i + 1).drop_last() =~= all@.take(i as int));
                assert(all@.take(i + 1).last() == b);
            }
            if contains_u64(ids, b) {
                taken.push(b);
            } else {
                kept.push(b);
            }
            i = i + 1;
        }
        assert(all@.take(all@.len() as int) =~= all@);
        self.batches = kept;
        taken
    }

    /// Updates the stored script and the enabled flag; says which script to load when the
    /// script must be rebuilt: on request, or when the flag changed while running.
    pub fn set_lua(&mut self, script: Option<String>, enabled: Option<bool>, reload: bool) -> (r: Option<String>)
        ensures
            final(self).lua_script == (match script { Some(s) => Some(s), None => old(self).lua_script }),
            final(self).lua_enabled == (match enabled { Some(e) => e, None => old(self).lua_enabled }),
            final(self).running == old(self).running,
            final(self).connection_count == old(self).connection_count,
            final(self).config_count == old(self).config_count,
            final(self).next_batch_id == old(self).next_batch_id,
            final(self).batches@ == old(self).batches@,
            ({
                let changed = match enabled { Some(e) => e != old(self).lua_enabled, None => false };
                if reload || (changed && old(self).running) {
                    r matches Some(code) && code@ == lua_code_of(final(self).lua_enabled, final(self).lua_script)
                } else {
                    r is None
                }
            }),
    {
        match script {
            Some(s) => {
                self.lua_script = Some(s);
            },
            None => {},
        }
        let changed = match enabled {
            Some(e) => if self.lua_enabled != e {
                self.lua_enabled = e;
                true
            } else {
                false
            },
            None => false,
        };
        if reload || (changed && self.running) {
            Some(lua_code(self.lua_enabled, &self.lua_script))
        } else {
            None
        }
    }
}

/// The metadata key a codec sets to have a response sent back.
pub open spec fn key_auto_response() -> Seq<u8> {
    seq![0x61u8, 0x75u8, 0x74u8, 0x6Fu8, 0x5Fu8, 0x72u8, 0x65u8, 0x73u8, 0x70u8, 0x6Fu8, 0x6Eu8, 0x73u8, 0x65u8]
}

pub fn key_auto_response_bytes() -> (v: Vec<u8>)
    ensures
        v@ == key_auto_response(),
{
    let v = vec![0x61u8, 0x75u8, 0x74u8, 0x6Fu8, 0x5Fu8, 0x72u8, 0x65u8, 0x73u8, 0x70u8, 0x6Fu8, 0x6Eu8, 0x73u8, 0x65u8];
    assert(v@ =~= key_auto_response());
    v
}

/// The entries not named `key`.
pub open spec fn without_id(values: Seq<Value>, key: Seq<char>) -> Seq<Value> {
    values.filter(|v: Value| v.id@ != key)
}

/// The entries of `values` not named `key`, in order.
fn remove_with_id(values: Vec<Value>, key: &String) -> (kept: Vec<Value>)
    ensures
        kept@ == without_id(values@, key@),
{
    let mut all = values;
    let ghost orig = all@;
    let ghost f = |v: Value| v.id@ != key@;
    let mut kept: Vec<Value> = Vec::new();
    let ghost mut k: int = 0;
    proof {
        reveal(Seq::filter);
        assert(orig.take(0).filter(f) =~= Seq::<Value>::empty());
        assert(orig.skip(0) =~= orig);
    }
    while all.len() > 0
        invariant
            0 <= k <= orig.len(),
            all@ == orig.skip(k),
            f == (|v: Value| v.id@ != key@),
            kept@ == orig.take(k).filter(f),
        decreases all@.len(),
    {
        let v = all.remove(0);
        proof {
            reveal(Seq::filter);
            assert(orig.take(k + 1).drop_last() =~= orig.take(k));
            assert(orig.take(k + 1).last() == v);
            assert(all@ =~= orig.skip(k + 1));
        }
        if v.id != *key {
            kept.push(v);
        }
        proof {
            k = k + 1;
        }
    }
    assert(orig.take(k) =~= orig);
    kept
}

/// Takes the automatic response a codec asked for out of a received message: the bytes of its
/// first `auto_response` metadata entry and the connection to send them on; every entry of
/// that name is removed.
pub fn take_auto_response(message: &mut Message) -> (r: Option<(Vec<u8>, u32)>)
    ensures
        match first_with_id(old(message).metadata@, ascii_chars(key_auto_response())) {
            None => r is None && *final(message) == *old(message),
            Some(i) => {
                &&& r matches Some((bytes, id)) && bytes@ == old(message).metadata@[i].value_payload@
                    && id == old(message).connection_id
                &&& *final(message) == (Message { metadata: final(message).metadata, ..*old(message) })
                &&& final(message).metadata@ == without_id(old(message).metadata@, ascii_chars(key_auto_response()))
            },
        },
{
    let key = ascii_string(key_auto_response_bytes());
    let found = find_id(&message.metadata, &key);
    match found {
        None => None,
        Some(i) => {
            let bytes = crate::codec::passthrough::clone_bytes(&message.metadata[i].value_payload);
            let mut all: Vec<Value> = Vec::new();
            std::mem::swap(&mut all, &mut message.metadata);
            message.metadata = remove_with_id(all, &key);
            Some((bytes, message.connection_id))
        },
    }
}

} // verus!
