//! Asset bookkeeping.
//!
//! A repository of named byte assets built once at startup and passed by
//! reference wherever assets are read — no ambient global state — plus the
//! fetch gate that keeps at most one dataset request in flight: a request
//! issued while one is outstanding is rejected, never queued.
use vstd::prelude::*;

verus! {

/// Why an asset could not be served.
#[derive(Clone, Copy, Debug, PartialEq, Eq, Structural)]
pub enum AssetError {
    /// No asset of that name exists; missing startup assets are fatal.
    NotFound,
    /// A fetch is already in flight; the request is dropped, not queued.
    Interrupted,
}

/// A repository of named byte assets.
pub struct AssetRepository {
    pub entries: Vec<(String, Vec<u8>)>,
}

/// The index of the first entry with the given name, if any.
pub open spec fn find_entry(entries: Seq<(String, Vec<u8>)>, name: Seq<char>, k: int) -> Option<
    int,
>
    decreases entries.len() - k,
{
    if k < 0 || k >= entries.len() {
        Option::None
    } else if entries[k].0@ == name {
        Option::Some(k)
    } else {
        find_entry(entries, name, k + 1)
    }
}

impl AssetRepository {
    /// An empty repository.
    pub fn new() -> (r: AssetRepository)
        ensures
            r.entries@.len() == 0,
    {
        AssetRepository { entries: Vec::new() }
    }

    /// Register an asset under a name.
    pub fn insert(&mut self, name: String, bytes: Vec<u8>)
        ensures
            final(self).entries@ == old(self).entries@.push((name, bytes)),
    {
        self.entries.push((name, bytes));
    }

    /// Fetch the first asset registered under the name; `NotFound` exactly
    /// when no entry carries it.
    pub fn retrieve(&self, name: &str) -> (r: Result<&Vec<u8>, AssetError>)
        ensures
            ({
                let f = find_entry(self.entries@, name@, 0);
                match r {
                    Ok(bytes) => f is Some && bytes@ == self.entries@[f->Some_0].1@,
                    Err(e) => f is None && e == AssetError::NotFound,
                }
            }),
    {
        let mut k: usize = 0;
        while k < self.entries.len()
            invariant
                0 <= k <= self.entries@.len(),
                find_entry(self.entries@, name@, 0) == find_entry(self.entries@, name@, k as int),
            decreases self.entries@.len() - k,
        {
            if string_eq_str(&self.entries[k].0, name) {
                return Ok(&self.entries[k].1);
            }
            k = k + 1;
        }
        Err(AssetError::NotFound)
    }
}

/// String against slice comparison with an exact meaning.
fn string_eq_str(a: &String, b: &str) -> (r: bool)
    ensures
        r == (a@ == b@),
{
    let bs = String::from_str(b);
    a.eq(&bs)
}

/// Fetch a shader's source text by asset name. Include preprocessing is the
/// rendering shell's concern; the library serves the named source, and
/// `NotFound` is exactly the missing-asset case, which is fatal at startup.
pub fn load_shader<'a>(repo: &'a AssetRepository, path: &str) -> (r: Result<&'a Vec<u8>, AssetError>)
    ensures
        ({
            let f = find_entry(repo.entries@, path@, 0);
            match r {
                Ok(bytes) => f is Some && bytes@ == repo.entries@[f->Some_0].1@,
                Err(e) => f is None && e == AssetError::NotFound,
            }
        }),
{
    repo.retrieve(path)
}

/// What issuing a request does to the in-flight flag: it is accepted only
/// when nothing is in flight, and afterwards something is.
pub open spec fn request_spec(loading: bool) -> (bool, bool) {
    if loading {
        (true, false)
    } else {
        (true, true)
    }
}

/// The dataset fetch gate. The shell performs the actual read or network
/// fetch; this state decides whether a fetch may start at all.
pub struct Assets {
    pub loading: bool,
}

impl Assets {
    /// A gate with nothing in flight.
    pub fn new() -> (r: Assets)
        ensures
            r.loading == false,
    {
        Assets { loading: false }
    }

    /// Ask to start a fetch: rejected with `Interrupted` while one is in
    /// flight (the request is dropped, not queued), accepted and marked in
    /// flight otherwise.
    pub fn request(&mut self) -> (r: Result<(), AssetError>)
        ensures
            final(self).loading == request_spec(old(self).loading).0,
            r is Ok <==> request_spec(old(self).loading).1,
            old(self).loading ==> r == Result::<(), AssetError>::Err(AssetError::Interrupted),
    {
        if self.loading {
            return Err(AssetError::Interrupted);
        }
        self.loading = true;
        Ok(())
    }

    /// The pending fetch has finished, in success or failure: nothing is in
    /// flight anymore and the next request may proceed.
    pub fn fulfill(&mut self)
        ensures
            final(self).loading == false,
    {
        self.loading = false;
    }
}

/// Law: no two fetches overlap. From any starting state, a request
/// followed by another has the later one rejected.
pub proof fn lemma_at_most_one_in_flight(loading: bool)
    ensures
        !request_spec(request_spec(loading).0).1,
{
}

} // verus!
