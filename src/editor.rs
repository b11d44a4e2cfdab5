use vstd::prelude::*;

verus! {

/// What `Path::join` gives for a directory and a name, read back as text.
pub uninterp spec fn path_joined(dir: Seq<char>, name: Seq<char>) -> Seq<char>;

/// Relies on std::path::Path::join: `name` appended to `dir` as one more
/// component; the result depends on the two texts alone.
#[verifier::external_body]
fn join_path(dir: &str, name: &str) -> (r: String)
    ensures
        r@ == path_joined(dir@, name@),
{
    std::path::Path::new(dir).join(name).to_string_lossy().into_owned()
}

/// The editor's menu bar; it holds no state.
#[derive(Debug)]
pub struct Menu {}

impl Menu {
    pub fn new() -> (r: Menu) {
        Menu {  }
    }
}

/// What the project tab holds: the path picked to open, the name and
/// directory of a project to create, whether the creation window is shown,
/// and whether a project is loaded.
pub struct TabView {
    pub path: Option<Seq<char>>,
    pub new_project_name: Seq<char>,
    pub new_project_path: Seq<char>,
    pub creation_window: bool,
    pub loaded: bool,
}

/// The database path of a project to create: in the picked folder where one
/// was picked, else in the default directory where a name was given.
pub open spec fn creation_path_of(t: TabView, picked_folder: Option<Seq<char>>) -> Option<Seq<char>> {
    match picked_folder {
        Some(f) => Some(path_joined(f, t.new_project_name)),
        None => if t.new_project_name.len() > 0 {
            Some(path_joined(t.new_project_path, t.new_project_name))
        } else {
            None
        },
    }
}

/// The state of the project tab: which project to open or create.
#[derive(Debug)]
pub struct TabProject {
    path: Option<String>,
    new_project_name: String,
    new_project_path: String,
    project_creation_window: bool,
    loaded_project: bool,
}

impl View for TabProject {
    type V = TabView;

    closed spec fn view(&self) -> TabView {
        TabView {
            path: match self.path {
                Some(p) => Some(p@),
                None => None,
            },
            new_project_name: self.new_project_name@,
            new_project_path: self.new_project_path@,
            creation_window: self.project_creation_window,
            loaded: self.loaded_project,
        }
    }
}

impl TabProject {
    /// A tab with nothing loaded, whose projects are created under `home_dir`.
    pub fn new(home_dir: String) -> (r: TabProject)
        ensures
            r@ == (TabView {
                path: None,
                new_project_name: Seq::empty(),
                new_project_path: home_dir@,
                creation_window: false,
                loaded: false,
            }),
    {
        TabProject {
            path: None,
            new_project_name: String::new(),
            new_project_path: home_dir,
            project_creation_window: false,
            loaded_project: false,
        }
    }

    pub fn is_loaded(&self) -> (r: bool)
        ensures
            r == self@.loaded,
    {
        self.loaded_project
    }

    /// Records the path of a project file picked to open.
    pub fn set_path(&mut self, path: String)
        ensures
            final(self)@ == (TabView { path: Some(path@), ..old(self)@ }),
    {
        self.path = Some(path);
    }

    /// The path of the project file picked to open, if any.
    pub fn path(&self) -> (r: Option<String>)
        ensures
            r matches Some(p) ==> self@.path == Some(p@),
            r is None ==> self@.path is None,
    {
        match &self.path {
            Some(p) => Some(p.clone()),
            None => None,
        }
    }

    /// Sets the name of the project to create.
    pub fn set_project_name(&mut self, name: String)
        ensures
            final(self)@ == (TabView { new_project_name: name@, ..old(self)@ }),
    {
        self.new_project_name = name;
    }

    /// Shows the creation window.
    pub fn show_creation_window(&mut self)
        ensures
            final(self)@ == (TabView { creation_window: true, ..old(self)@ }),
    {
        self.project_creation_window = true;
    }

    /// The database path of the project to create, if it can be created.
    pub fn creation_path(&self, picked_folder: Option<&str>) -> (r: Option<String>)
        ensures
            match creation_path_of(self@, match picked_folder {
                Some(f) => Some(f@),
                None => None,
            }) {
                Some(p) => r matches Some(q) && q@ == p,
                None => r is None,
            },
    {
        match picked_folder {
            Some(f) => Some(join_path(f, self.new_project_name.as_str())),
            None => {
                if !self.new_project_name.as_str().is_empty() {
                    Some(join_path(self.new_project_path.as_str(), self.new_project_name.as_str()))
                } else {
                    None
                }
            },
        }
    }

    /// Confirms the creation of the project: the tab counts it as loaded and
    /// closes the creation window.
    pub fn confirm_creation(&mut self)
        ensures
            final(self)@ == (TabView { loaded: true, creation_window: false, ..old(self)@ }),
    {
        self.loaded_project = true;
        self.project_creation_window = false;
    }
}

} // verus!
