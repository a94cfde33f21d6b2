//! Storage backends as capability records: the connection parameters each
//! variant wraps. The byte-level reading and writing of the medium is the
//! surrounding application's job; the core only carries the descriptor and
//! produces or consumes whole documents.
use vstd::prelude::*;

verus! {

/// A file-backed store: the path of the backing file.
#[derive(Debug)]
pub struct JSON {
    pub path: String,
}

impl Clone for JSON {
    /// An equal store, wrapping the same path.
    fn clone(&self) -> (r: JSON)
        ensures
            r == *self,
    {
        JSON { path: self.path.clone() }
    }
}

impl View for JSON {
    type V = Seq<char>;

    open spec fn view(&self) -> Seq<char> {
        self.path@
    }
}

impl JSON {
    /// Wraps a backing-file path.
    pub fn new(path: &String) -> (r: JSON)
        ensures
            r@ == path@,
    {
        JSON { path: path.clone() }
    }

    /// A file store with no path chosen yet.
    pub fn default() -> (r: JSON)
        ensures
            r@ == Seq::<char>::empty(),
    {
        JSON { path: String::new() }
    }
}

/// Parameters of a database-backed store; a reserved variant, carried but
/// not driven by the core.
#[derive(Debug)]
pub struct DBConnection {
    pub uri: String,
    pub port: u64,
    pub username: String,
    pub password: String,
    pub database: String,
}

/// Parameters of a remote-shell-backed store; a reserved variant, carried
/// but not driven by the core.
#[derive(Debug)]
pub struct SSHConnection {
    pub uri: String,
    pub port: u64,
    pub username: String,
    pub password: String,
}

/// The pluggable persistence capability an aggregate holds: today a
/// file-backed store, with the reserved variants as extension points.
#[derive(Debug)]
pub enum Storage {
    JSON(JSON),
}

impl Clone for Storage {
    /// An equal backend, wrapping the same connection parameters.
    fn clone(&self) -> (r: Storage)
        ensures
            r == *self,
    {
        match self {
            Storage::JSON(j) => Storage::JSON(j.clone()),
        }
    }
}

impl Clone for DBConnection {
    /// An equal record, field for field.
    fn clone(&self) -> (r: DBConnection)
        ensures
            r == *self,
    {
        DBConnection {
            uri: self.uri.clone(),
            port: self.port,
            username: self.username.clone(),
            password: self.password.clone(),
            database: self.database.clone(),
        }
    }
}

impl Clone for SSHConnection {
    /// An equal record, field for field.
    fn clone(&self) -> (r: SSHConnection)
        ensures
            r == *self,
    {
        SSHConnection {
            uri: self.uri.clone(),
            port: self.port,
            username: self.username.clone(),
            password: self.password.clone(),
        }
    }
}

impl View for Storage {
    type V = Seq<char>;

    open spec fn view(&self) -> Seq<char> {
        match self {
            Storage::JSON(j) => j@,
        }
    }
}

impl Storage {
    /// The connection descriptor this backend was made with (for the
    /// file-backed variant, the backing-file path).
    pub fn descriptor(&self) -> (r: &String)
        ensures
            r@ == self@,
    {
        match self {
            Storage::JSON(j) => &j.path,
        }
    }
}

impl Default for Storage {
    /// A file-backed store with no path chosen yet.
    fn default() -> (r: Storage)
        ensures
            r@ == Seq::<char>::empty(),
    {
        Storage::JSON(JSON::default())
    }
}

} // verus!
