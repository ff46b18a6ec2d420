use vstd::prelude::*;
use std::collections::HashMap;
use std::time::Instant;
use crate::error::{ArgumentError, ContextError};
use crate::key::{derive_key, key_of, views};
use crate::value::{Value, ValueView, field_value, fields_view, find_field};

verus! {

broadcast use vstd::std_specs::hash::group_hash_axioms;

/// One stored context.
#[derive(Debug, PartialEq, Eq)]
pub struct ContextEntry {
    pub data: Value,
    /// The last second, counted from the store's creation, at which the entry
    /// is fresh.
    pub expires_at: u64,
}

/// The model of a stored context.
pub struct EntryView {
    pub data: ValueView,
    pub expires_at: u64,
}

impl ContextEntry {
    pub open spec fn view(&self) -> EntryView {
        EntryView { data: self.data@, expires_at: self.expires_at }
    }
}

/// A keyed, time-bounded store of contexts. Each derived key holds at most one
/// entry. Time is counted in whole seconds since the store was created.
///
/// Policy on expiry: `open` serves an existing entry only while it is fresh
/// (the current second is not past its `expires_at`); a missing or stale entry
/// is replaced by an empty one that lives for the requested seconds. `update`
/// replaces the data and keeps the entry's expiry; an update for a key the
/// store does not hold creates an entry that is fresh for the current second
/// only.
pub struct ContextStore {
    entries: HashMap<u64, ContextEntry>,
    origin: Instant,
}

/// The empty object, which a new context starts with.
pub open spec fn empty_object() -> ValueView {
    ValueView::Object(Seq::empty())
}

/// Whether an entry has expired at the given second.
pub open spec fn is_stale(e: EntryView, now: u64) -> bool {
    now > e.expires_at
}

/// The expiry of an entry created at `now` for `seconds` seconds, held at the
/// largest second when the sum does not fit.
pub open spec fn expiry(now: u64, seconds: i64) -> u64 {
    if now + seconds > u64::MAX {
        u64::MAX
    } else {
        (now + seconds) as u64
    }
}

/// The entries after opening `key` at `now`: a fresh entry stays as it is;
/// otherwise an empty one is put in its place.
pub open spec fn opened(m: Map<u64, EntryView>, key: u64, seconds: i64, now: u64) -> Map<
    u64,
    EntryView,
> {
    if m.contains_key(key) && !is_stale(m[key], now) {
        m
    } else {
        m.insert(key, EntryView { data: empty_object(), expires_at: expiry(now, seconds) })
    }
}

/// A key as the integer that carries it: the same 64 bits, read as two's
/// complement.
pub open spec fn signed(k: u64) -> i64 {
    if k <= i64::MAX {
        k as i64
    } else {
        (k - 0x1_0000_0000_0000_0000) as i64
    }
}

/// The key that an integer carries: the same 64 bits, read as unsigned.
pub open spec fn unsigned(n: i64) -> u64 {
    if n >= 0 {
        n as u64
    } else {
        (n + 0x1_0000_0000_0000_0000) as u64
    }
}

fn to_signed(k: u64) -> (r: i64)
    ensures
        r == signed(k),
{
    if k <= i64::MAX as u64 {
        k as i64
    } else {
        (k - 0x8000_0000_0000_0000u64) as i64 + i64::MIN
    }
}

fn to_unsigned(n: i64) -> (r: u64)
    ensures
        r == unsigned(n),
{
    if n >= 0 {
        n as u64
    } else {
        (n + i64::MAX + 1) as u64 + 0x8000_0000_0000_0000u64
    }
}

/// The object that `open` returns: the derived key and a copy of the data.
pub open spec fn context_object(key: u64, data: ValueView) -> ValueView {
    ValueView::Object(
        seq![("key"@, ValueView::Integer(signed(key))), ("data"@, data)],
    )
}

/// The entries after, and the result of, opening `keys` for `seconds` at `now`.
pub open spec fn open_outcome(
    m: Map<u64, EntryView>,
    keys: Seq<ValueView>,
    seconds: i64,
    now: u64,
) -> (Map<u64, EntryView>, Result<ValueView, ContextError>) {
    if seconds < 0 {
        (m, Err(ContextError::InvalidArgument(ArgumentError::NegativeTtl)))
    } else {
        let k = key_of(keys);
        let after = opened(m, k, seconds, now);
        (after, Ok(context_object(k, after[k].data)))
    }
}

/// The entries after updating with `context` at `now`, or the error.
pub open spec fn update_outcome(m: Map<u64, EntryView>, context: ValueView, now: u64) -> Result<
    Map<u64, EntryView>,
    ContextError,
> {
    match context {
        ValueView::Object(fields) => match field_value(fields, "key"@) {
            None => Err(ContextError::InvalidArgument(ArgumentError::MissingKey)),
            Some(ValueView::Integer(n)) => match field_value(fields, "data"@) {
                None => Err(ContextError::InvalidArgument(ArgumentError::MissingData)),
                Some(d) => {
                    let k = unsigned(n);
                    let expires_at = if m.contains_key(k) {
                        m[k].expires_at
                    } else {
                        now
                    };
                    Ok(m.insert(k, EntryView { data: d, expires_at }))
                },
            },
            Some(_) => Err(ContextError::InvalidArgument(ArgumentError::KeyNotInteger)),
        },
        _ => Err(ContextError::InvalidArgument(ArgumentError::ContextNotObject)),
    }
}

/// The model of a result that carries a value.
pub open spec fn result_view(r: Result<Value, ContextError>) -> Result<ValueView, ContextError> {
    match r {
        Ok(v) => Ok(v@),
        Err(e) => Err(e),
    }
}

impl ContextStore {
    /// The entries, by derived key.
    pub closed spec fn view(&self) -> Map<u64, EntryView> {
        self.entries@.map_values(|e: ContextEntry| e@)
    }

    /// An empty store whose clock starts now.
    pub fn new() -> (r: ContextStore)
        ensures
            r@ == Map::<u64, EntryView>::empty(),
    {
        let r = ContextStore { entries: HashMap::new(), origin: Instant::now() };
        assert(r@ =~= Map::<u64, EntryView>::empty());
        r
    }

    /// Whole seconds since the store was created.
    fn current_second(&self) -> u64 {
        self.origin.elapsed().as_secs()
    }

    /// Opens the context of `keys` at second `now`: creates it empty, for
    /// `seconds` seconds, when it is missing or stale, and returns
    /// `{"key": <derived key>, "data": <copy of its data>}`.
    pub fn open_at(&mut self, keys: &Vec<Value>, seconds: i64, now: u64) -> (r: Result<
        Value,
        ContextError,
    >)
        ensures
            (final(self)@, result_view(r)) == open_outcome(old(self)@, views(keys@), seconds, now),
    {
        if seconds < 0 {
            return Err(ContextError::InvalidArgument(ArgumentError::NegativeTtl));
        }
        let key = derive_key(keys);
        let fresh = match self.entries.get(&key) {
            Some(e) => now <= e.expires_at,
            None => false,
        };
        let ghost k = key_of(views(keys@));
        assert(fresh == (old(self)@.contains_key(k) && !is_stale(old(self)@[k], now)));
        if !fresh {
            let ttl = seconds as u64;
            let expires_at = if ttl > u64::MAX - now {
                u64::MAX
            } else {
                now + ttl
            };
            let entry = ContextEntry { data: Value::Object(Vec::new()), expires_at };
            assert(entry.data@->Object_0 =~= Seq::<(Seq<char>, ValueView)>::empty());
            assert(entry@ == EntryView { data: empty_object(), expires_at: expiry(now, seconds) });
            self.entries.insert(key, entry);
            assert(self.entries@ == old(self).entries@.insert(k, entry));
        }
        assert(self@ =~= opened(old(self)@, k, seconds, now));
        let data = self.entries.get(&key).unwrap().data.duplicate();
        let mut fields: Vec<(String, Value)> = Vec::new();
        fields.push(("key".to_owned(), Value::Integer(to_signed(key))));
        fields.push(("data".to_owned(), data));
        assert(fields@[0].1@ == ValueView::Integer(signed(k)));
        let r = Value::Object(fields);
        proof {
            let after = opened(old(self)@, k, seconds, now);
            assert(r@->Object_0 =~= context_object(k, after[k].data)->Object_0);
        }
        Ok(r)
    }

    /// Writes the `data` of `context`, an object `{"key": <integer>, "data":
    /// <value>}`, to the entry of that key at second `now`; the entry keeps its
    /// expiry. Nothing changes when the context is malformed.
    pub fn update_at(&mut self, context: &Value, now: u64) -> (r: Result<(), ContextError>)
        ensures
            match update_outcome(old(self)@, context@, now) {
                Ok(after) => r is Ok && final(self)@ == after,
                Err(e) => r == Err::<(), ContextError>(e) && final(self)@ == old(self)@,
            },
    {
        let fields = match context {
            Value::Object(fields) => fields,
            _ => {
                return Err(ContextError::InvalidArgument(ArgumentError::ContextNotObject));
            },
        };
        assert(context@->Object_0 =~= fields_view(fields@));
        let key_name = "key".to_owned();
        let n = match find_field(fields, &key_name) {
            None => {
                return Err(ContextError::InvalidArgument(ArgumentError::MissingKey));
            },
            Some(Value::Integer(n)) => *n,
            Some(_) => {
                return Err(ContextError::InvalidArgument(ArgumentError::KeyNotInteger));
            },
        };
        let data_name = "data".to_owned();
        let data = match find_field(fields, &data_name) {
            None => {
                return Err(ContextError::InvalidArgument(ArgumentError::MissingData));
            },
            Some(d) => d.duplicate(),
        };
        let key = to_unsigned(n);
        let expires_at = match self.entries.get(&key) {
            Some(e) => e.expires_at,
            None => now,
        };
        self.entries.insert(key, ContextEntry { data, expires_at });
        proof {
            let after = update_outcome(old(self)@, context@, now);
            assert(self@ =~= after->Ok_0);
        }
        Ok(())
    }

    /// Opens the context of `keys` at the current second; see `open_at`.
    pub fn open(&mut self, keys: &Vec<Value>, seconds: i64) -> (r: Result<Value, ContextError>)
        ensures
            exists|now: u64|
                #[trigger] open_outcome(old(self)@, views(keys@), seconds, now) == (
                    final(self)@,
                    result_view(r),
                ),
            r is Ok <==> seconds >= 0,
    {
        let now = self.current_second();
        self.open_at(keys, seconds, now)
    }

    /// Updates from `context` at the current second; see `update_at`.
    pub fn update(&mut self, context: &Value) -> (r: Result<(), ContextError>)
        ensures
            exists|now: u64|
                match #[trigger] update_outcome(old(self)@, context@, now) {
                    Ok(after) => r is Ok && final(self)@ == after,
                    Err(e) => r == Err::<(), ContextError>(e) && final(self)@ == old(self)@,
                },
    {
        let now = self.current_second();
        self.update_at(context, now)
    }

    /// The number of entries.
    pub fn len(&self) -> (r: usize)
        ensures
            r == self@.len(),
    {
        assert(self@.dom() =~= self.entries@.dom());
        self.entries.len()
    }

    /// Whether the store holds an entry for `key`.
    pub fn contains_key(&self, key: u64) -> (r: bool)
        ensures
            r == self@.contains_key(key),
    {
        self.entries.contains_key(&key)
    }

    /// A copy of the entry for `key`, if there is one.
    pub fn entry(&self, key: u64) -> (r: Option<ContextEntry>)
        ensures
            match r {
                Some(e) => self@.contains_key(key) && e@ == self@[key],
                None => !self@.contains_key(key),
            },
    {
        match self.entries.get(&key) {
            Some(e) => Some(ContextEntry { data: e.data.duplicate(), expires_at: e.expires_at }),
            None => None,
        }
    }
}

} // verus!