use vstd::prelude::*;

verus! {

/// What `Path::with_extension` gives for a path and an extension, read back
/// as text.
pub uninterp spec fn path_with_extension(path: Seq<char>, ext: Seq<char>) -> Seq<char>;

/// Relies on std::path::Path::with_extension: the path with its extension set
/// to `ext`; the result depends on the two texts alone. A path made from a
/// `&str` is valid UTF-8, so `to_string_lossy` changes nothing. An extension
/// holding a path separator makes it panic.
#[verifier::external_body]
fn with_extension(path: &str, ext: &str) -> (r: String)
    requires
        forall|i: int| 0 <= i < ext@.len() ==> ext@[i] != '/' && ext@[i] != '\\',
    ensures
        r@ == path_with_extension(path@, ext@),
{
    std::path::Path::new(path).with_extension(ext).to_string_lossy().into_owned()
}

/// `s` with every `from` replaced by `to`.
pub open spec fn replace_char(s: Seq<char>, from: char, to: char) -> Seq<char> {
    s.map_values(|c: char| if c == from { to } else { c })
}

/// `s` with every backslash turned into a forward slash.
pub fn forward_slashes(s: &str) -> (r: String)
    ensures
        r@ == replace_char(s@, '\\', '/'),
{
    let n = s.unicode_len();
    let slash = "/";
    proof {
        reveal_strlit("/");
    }
    let mut out = String::new();
    let mut i: usize = 0;
    while i < n
        invariant
            n == s@.len(),
            0 <= i <= n,
            slash@ == seq!['/'],
            out@ == replace_char(s@.take(i as int), '\\', '/'),
        decreases n - i,
    {
        let c = s.get_char(i);
        if c == '\\' {
            out.append(slash);
        } else {
            let one = s.substring_char(i, i + 1);
            assert(one@ =~= seq![c]);
            out.append(one);
        }
        assert(s@.take(i + 1) =~= s@.take(i as int).push(c));
        assert(replace_char(s@.take(i + 1), '\\', '/') =~= replace_char(s@.take(i as int), '\\', '/').push(
            if c == '\\' { '/' } else { c },
        ));
        i = i + 1;
    }
    assert(s@.take(n as int) =~= s@);
    out
}

/// The extension of a project's database file.
pub open spec fn db_extension() -> Seq<char> {
    seq!['d', 'b']
}

/// The location of the database of the project at `path`: the path with the
/// database extension, with forward slashes only.
pub open spec fn database_url_of(path: Seq<char>) -> Seq<char> {
    replace_char(path_with_extension(path, db_extension()), '\\', '/')
}

/// The location of the database of the project at `db_path`.
pub fn database_url(db_path: &str) -> (r: String)
    ensures
        r@ == database_url_of(db_path@),
{
    let ext = String::from_str("db");
    proof {
        reveal_strlit("db");
    }
    assert(ext@ =~= db_extension());
    let with_ext = with_extension(db_path, ext.as_str());
    forward_slashes(with_ext.as_str())
}

/// The state of a store, as the status slot reports it.
pub enum StoreState {
    /// No connection has been asked for.
    Closed,
    /// A connection to the database at this location is being made.
    Opening(Seq<char>),
    /// The database at this location is connected and its schema exists.
    Open(Seq<char>),
    /// The last open, of the database at this location, failed with this
    /// message.
    Failed(Seq<char>, Seq<char>),
}

/// How an open ended: the connection was made and the schema created in one
/// transaction, or this error came.
#[derive(Debug, Clone)]
pub enum OpenOutcome {
    Ready,
    Failed(String),
}

/// The message that the status slot holds after a failed open.
pub open spec fn failure_text(error: Seq<char>) -> Seq<char> {
    "❌ Erreur : "@ + error
}

/// The state after an open of the database at `url` starts from `s`: a new
/// open may start from any state, a failed one included.
pub open spec fn begin_step(s: StoreState, url: Seq<char>) -> StoreState {
    StoreState::Opening(url)
}

/// The state after an open ends; an outcome that comes while no open is in
/// flight changes nothing.
pub open spec fn finish_step(s: StoreState, outcome: OpenOutcome) -> StoreState {
    match s {
        StoreState::Opening(url) => match outcome {
            OpenOutcome::Ready => StoreState::Open(url),
            OpenOutcome::Failed(e) => StoreState::Failed(url, failure_text(e@)),
        },
        _ => s,
    }
}

/// The state after a whole open of the project at `path` from `s`.
pub open spec fn open_step(s: StoreState, path: Seq<char>, outcome: OpenOutcome) -> StoreState {
    finish_step(begin_step(s, database_url_of(path)), outcome)
}

#[derive(Debug)]
enum Status {
    Closed,
    Opening(String),
    Open(String),
    Failed(String, String),
}

/// The persistence store of a project: which database it is connected to,
/// or why it is not. One open is in flight at a time; the caller holds the
/// store's lock from `begin_open` to `finish_open`.
#[derive(Debug)]
pub struct EngineDb {
    status: Status,
}

impl View for EngineDb {
    type V = StoreState;

    closed spec fn view(&self) -> StoreState {
        match self.status {
            Status::Closed => StoreState::Closed,
            Status::Opening(u) => StoreState::Opening(u@),
            Status::Open(u) => StoreState::Open(u@),
            Status::Failed(u, m) => StoreState::Failed(u@, m@),
        }
    }
}

impl EngineDb {
    pub fn new() -> (r: EngineDb)
        ensures
            r@ == StoreState::Closed,
    {
        EngineDb { status: Status::Closed }
    }

    /// Whether a database is connected with its schema in place.
    pub fn is_loaded(&self) -> (r: bool)
        ensures
            r == self@ is Open,
    {
        match self.status {
            Status::Open(_) => true,
            _ => false,
        }
    }

    /// The text of the status slot: the location of the connected database,
    /// the message of the last failure, or nothing.
    pub fn status_text(&self) -> (r: String)
        ensures
            r@ == match self@ {
                StoreState::Open(url) => url,
                StoreState::Failed(_, m) => m,
                _ => Seq::empty(),
            },
    {
        match &self.status {
            Status::Open(u) => u.clone(),
            Status::Failed(_, m) => m.clone(),
            _ => String::new(),
        }
    }

    /// The location of the database that the last open was for, if any.
    pub fn location(&self) -> (r: Option<String>)
        ensures
            match self@ {
                StoreState::Closed => r is None,
                StoreState::Opening(u) | StoreState::Open(u) | StoreState::Failed(u, _) => r matches Some(
                    x,
                ) && x@ == u,
            },
    {
        match &self.status {
            Status::Closed => None,
            Status::Opening(u) | Status::Open(u) | Status::Failed(u, _) => Some(u.clone()),
        }
    }

    /// The message to show after a failed open: the location of the database,
    /// then the status text; nothing where the last open did not fail.
    pub fn failure_report(&self) -> (r: Option<String>)
        ensures
            match self@ {
                StoreState::Failed(u, m) => r matches Some(x) && x@ == u + ": "@ + m,
                _ => r is None,
            },
    {
        match &self.status {
            Status::Failed(u, m) => {
                let sep = ": ";
                Some(u.clone().concat(sep).concat(m.as_str()))
            },
            _ => None,
        }
    }

    /// Starts an open of the project at `db_path` and returns the location of
    /// the database to connect to.
    pub fn begin_open(&mut self, db_path: &str) -> (r: String)
        ensures
            r@ == database_url_of(db_path@),
            final(self)@ == begin_step(old(self)@, database_url_of(db_path@)),
    {
        let url = database_url(db_path);
        self.status = Status::Opening(url.clone());
        url
    }

    /// Ends the open in flight with its outcome; returns whether one was in
    /// flight.
    pub fn finish_open(&mut self, outcome: OpenOutcome) -> (r: bool)
        ensures
            r == old(self)@ is Opening,
            final(self)@ == finish_step(old(self)@, outcome),
    {
        let url = match &self.status {
            Status::Opening(u) => u.clone(),
            _ => return false,
        };
        match outcome {
            OpenOutcome::Ready => {
                self.status = Status::Open(url);
            },
            OpenOutcome::Failed(e) => {
                let head = String::from_str("❌ Erreur : ");
                self.status = Status::Failed(url, head.concat(e.as_str()));
            },
        }
        true
    }
}

/// The state after opens run one after the other, each a path and how it
/// ended, starting from `s`.
pub open spec fn run_opens(s: StoreState, opens: Seq<(Seq<char>, OpenOutcome)>) -> StoreState
    decreases opens.len(),
{
    if opens.len() == 0 {
        s
    } else {
        open_step(run_opens(s, opens.drop_last()), opens.last().0, opens.last().1)
    }
}

/// Opens serialized by the store's lock: the store ends as the last one left
/// it, connected to its database where it succeeded, whatever came before.
pub proof fn lemma_last_open_wins(s: StoreState, opens: Seq<(Seq<char>, OpenOutcome)>)
    requires
        opens.len() > 0,
    ensures
        forall|t: StoreState| run_opens(s, opens) == #[trigger] open_step(t, opens.last().0, opens.last().1),
        opens.last().1 is Ready ==> run_opens(s, opens) == StoreState::Open(
            database_url_of(opens.last().0),
        ),
{
}

/// Opening the same project twice, both times successfully, leaves the store
/// as one open does: connected to the same database.
pub proof fn lemma_reopen_same_path(s: StoreState, path: Seq<char>)
    ensures
        run_opens(s, seq![(path, OpenOutcome::Ready), (path, OpenOutcome::Ready)]) == run_opens(
            s,
            seq![(path, OpenOutcome::Ready)],
        ),
        run_opens(s, seq![(path, OpenOutcome::Ready)]) == StoreState::Open(database_url_of(path)),
{
    let two = seq![(path, OpenOutcome::Ready), (path, OpenOutcome::Ready)];
    let one = seq![(path, OpenOutcome::Ready)];
    assert(two.drop_last() =~= one);
    assert(one.drop_last() =~= Seq::<(Seq<char>, OpenOutcome)>::empty());
}

} // verus!
