//! The directories the application keeps for the operator, and the files in
//! them.
//!
//! Paths are held as text, separated by `/`, and built the way `PathBuf::join`
//! builds them from a root and a relative name.

use vstd::prelude::*;
use crate::text::{chars_of, push_char, string_of, string_of_range};

verus! {

/// One of the directories the application keeps for the operator.
///
/// Every one of them is somewhere the operator is expected to work with a
/// file manager, so the interface only has to name them and point at them.
#[derive(Clone, Copy, Debug, PartialEq, Eq, Structural)]
pub enum Folder {
    Received,
    Sent,
    Stocks,
    Templates,
    Assets,
    Config,
}

impl Folder {
    /// Every folder, in the order the File menu offers them.
    pub fn all() -> (folders: [Folder; 6])
        ensures
            folders@ == seq![
                Folder::Received,
                Folder::Sent,
                Folder::Stocks,
                Folder::Templates,
                Folder::Assets,
                Folder::Config,
            ],
    {
        [
            Folder::Received,
            Folder::Sent,
            Folder::Stocks,
            Folder::Templates,
            Folder::Assets,
            Folder::Config,
        ]
    }

    pub open spec fn spec_label_key(self) -> Seq<char> {
        match self {
            Folder::Received => "menu-open-received"@,
            Folder::Sent => "menu-open-sent"@,
            Folder::Stocks => "menu-open-stocks"@,
            Folder::Templates => "menu-open-templates"@,
            Folder::Assets => "menu-open-assets"@,
            Folder::Config => "menu-open-config"@,
        }
    }

    /// The message key the folder's menu entry is labelled by.
    pub fn label_key(self) -> (key: &'static str)
        ensures
            key@ == self.spec_label_key(),
    {
        match self {
            Folder::Received => "menu-open-received",
            Folder::Sent => "menu-open-sent",
            Folder::Stocks => "menu-open-stocks",
            Folder::Templates => "menu-open-templates",
            Folder::Assets => "menu-open-assets",
            Folder::Config => "menu-open-config",
        }
    }
}

/// `name` placed under `base`, as `Path::join` places a relative name: with a
/// separator between them unless `base` is empty or already ends in one.
pub open spec fn path_join(base: Seq<char>, name: Seq<char>) -> Seq<char> {
    if base.len() == 0 || base.last() == '/' {
        base + name
    } else {
        base + seq!['/'] + name
    }
}

/// `s` without the separators it ends in, keeping a lone root.
pub open spec fn trim_trailing_separators(s: Seq<char>) -> Seq<char>
    decreases s.len(),
{
    if s.len() > 1 && s.last() == '/' {
        trim_trailing_separators(s.drop_last())
    } else {
        s
    }
}

/// Where the last separator of `p` is, if it has one.
pub open spec fn last_separator(p: Seq<char>) -> Option<int>
    decreases p.len(),
{
    if p.len() == 0 {
        None
    } else if p.last() == '/' {
        Some(p.len() - 1)
    } else {
        last_separator(p.drop_last())
    }
}

/// The directory a file path names its file in: everything before its last
/// component, without the separators in between; empty for a bare file name.
pub open spec fn parent_dir(p: Seq<char>) -> Seq<char> {
    match last_separator(p) {
        None => Seq::empty(),
        Some(k) => if k == 0 {
            seq!['/']
        } else {
            trim_trailing_separators(p.take(k + 1))
        },
    }
}

/// Joins `name` under `base`.
pub fn join(base: &str, name: &str) -> (path: String)
    ensures
        path@ == path_join(base@, name@),
{
    let chars = chars_of(base);
    let mut path = string_of(chars.as_slice());
    if chars.len() > 0 && chars[chars.len() - 1] != '/' {
        push_char(&mut path, '/');
    }
    path.append(name);
    path
}

/// The directory `path` names its file in.
pub fn parent(path: &str) -> (dir: String)
    ensures
        dir@ == parent_dir(path@),
{
    let chars = chars_of(path);
    let mut k = chars.len();
    assert(chars@.take(k as int) == chars@);
    while k > 0 && chars[k - 1] != '/'
        invariant
            k <= chars.len(),
            chars@ == path@,
            last_separator(chars@) == last_separator(chars@.take(k as int)),
        decreases k,
    {
        assert(chars@.take(k as int).drop_last() == chars@.take(k - 1));
        k -= 1;
    }
    if k == 0 {
        assert(chars@.take(0) == Seq::<char>::empty());
        return String::new();
    }
    let sep = k - 1;
    assert(last_separator(chars@) == Some(sep as int));
    if sep == 0 {
        let mut root = String::new();
        push_char(&mut root, '/');
        return root;
    }
    let mut end = k;
    while end > 1 && chars[end - 1] == '/'
        invariant
            1 <= end <= k <= chars.len(),
            trim_trailing_separators(chars@.take(k as int)) == trim_trailing_separators(
                chars@.take(end as int),
            ),
        decreases end,
    {
        assert(chars@.take(end as int).drop_last() == chars@.take(end - 1));
        end -= 1;
    }
    string_of_range(&chars, 0, end)
}

/// `path` without the separators it ends in, keeping a lone root.
pub fn trimmed_separators(path: &str) -> (t: String)
    ensures
        t@ == trim_trailing_separators(path@),
{
    let chars = chars_of(path);
    let mut end = chars.len();
    assert(chars@.take(end as int) == chars@);
    while end > 1 && chars[end - 1] == '/'
        invariant
            end <= chars.len(),
            chars@ == path@,
            trim_trailing_separators(chars@) == trim_trailing_separators(chars@.take(end as int)),
        decreases end,
    {
        assert(chars@.take(end as int).drop_last() == chars@.take(end - 1));
        end -= 1;
    }
    string_of_range(&chars, 0, end)
}

} // verus!

verus! {

/// Where each of the application's directories and files is, as text.
pub struct AppPathsView {
    pub config_file: Seq<char>,
    pub config_dir: Seq<char>,
    pub templates_dir: Seq<char>,
    pub assets_dir: Seq<char>,
    pub stocks_dir: Seq<char>,
    pub sent_dir: Seq<char>,
    pub received_dir: Seq<char>,
    pub log_file: Seq<char>,
}

/// Every directory and file the application keeps, laid out under the roots
/// the platform names.
#[derive(Clone, Debug)]
pub struct AppPaths {
    config_file: String,
    config_dir: String,
    templates_dir: String,
    assets_dir: String,
    stocks_dir: String,
    sent_dir: String,
    received_dir: String,
    log_file: String,
}

impl View for AppPaths {
    type V = AppPathsView;

    closed spec fn view(&self) -> AppPathsView {
        AppPathsView {
            config_file: self.config_file@,
            config_dir: self.config_dir@,
            templates_dir: self.templates_dir@,
            assets_dir: self.assets_dir@,
            stocks_dir: self.stocks_dir@,
            sent_dir: self.sent_dir@,
            received_dir: self.received_dir@,
            log_file: self.log_file@,
        }
    }
}

/// The layout `AppPaths::from_roots` puts under four roots.
pub open spec fn layout(
    config_dir: Seq<char>,
    data_dir: Seq<char>,
    pictures_dir: Seq<char>,
    state_dir: Seq<char>,
) -> AppPathsView {
    let config_file = path_join(config_dir, "config.toml"@);
    AppPathsView {
        config_file,
        config_dir: parent_dir(config_file),
        templates_dir: path_join(data_dir, "templates"@),
        assets_dir: path_join(data_dir, "assets"@),
        stocks_dir: path_join(pictures_dir, "Stocks"@),
        sent_dir: path_join(pictures_dir, "Sent"@),
        received_dir: path_join(pictures_dir, "Received"@),
        log_file: path_join(path_join(state_dir, "logs"@), "rssstv.log"@),
    }
}

impl AppPaths {
    /// Lays the application out under the roots the platform names: the
    /// configuration under `config_dir`, templates and assets under
    /// `data_dir`, pictures under `pictures_dir`, and the log under
    /// `state_dir`.
    pub fn from_roots(
        config_dir: &str,
        data_dir: &str,
        pictures_dir: &str,
        state_dir: &str,
    ) -> (paths: AppPaths)
        ensures
            paths@ == layout(config_dir@, data_dir@, pictures_dir@, state_dir@),
    {
        let config_file = join(config_dir, "config.toml");
        let config_dir = parent(config_file.as_str());
        let logs = join(state_dir, "logs");
        AppPaths {
            config_dir,
            config_file,
            templates_dir: join(data_dir, "templates"),
            assets_dir: join(data_dir, "assets"),
            stocks_dir: join(pictures_dir, "Stocks"),
            sent_dir: join(pictures_dir, "Sent"),
            received_dir: join(pictures_dir, "Received"),
            log_file: join(logs.as_str(), "rssstv.log"),
        }
    }

    pub fn config_file(&self) -> (path: &str)
        ensures
            path@ == self@.config_file,
    {
        self.config_file.as_str()
    }

    /// The directory the configuration file lives in.
    pub fn config_dir(&self) -> (path: &str)
        ensures
            path@ == self@.config_dir,
    {
        self.config_dir.as_str()
    }

    pub fn templates_dir(&self) -> (path: &str)
        ensures
            path@ == self@.templates_dir,
    {
        self.templates_dir.as_str()
    }

    pub fn assets_dir(&self) -> (path: &str)
        ensures
            path@ == self@.assets_dir,
    {
        self.assets_dir.as_str()
    }

    pub fn stocks_dir(&self) -> (path: &str)
        ensures
            path@ == self@.stocks_dir,
    {
        self.stocks_dir.as_str()
    }

    pub fn sent_dir(&self) -> (path: &str)
        ensures
            path@ == self@.sent_dir,
    {
        self.sent_dir.as_str()
    }

    pub fn received_dir(&self) -> (path: &str)
        ensures
            path@ == self@.received_dir,
    {
        self.received_dir.as_str()
    }

    pub fn log_file(&self) -> (path: &str)
        ensures
            path@ == self@.log_file,
    {
        self.log_file.as_str()
    }

    pub open spec fn spec_folder(self, folder: Folder) -> Seq<char> {
        match folder {
            Folder::Received => self@.received_dir,
            Folder::Sent => self@.sent_dir,
            Folder::Stocks => self@.stocks_dir,
            Folder::Templates => self@.templates_dir,
            Folder::Assets => self@.assets_dir,
            Folder::Config => self@.config_dir,
        }
    }

    /// The directory `folder` names.
    ///
    /// The configuration answers with the directory holding the file rather
    /// than the file itself: the application rewrites it as settings change,
    /// and a `.toml` has no dependable handler on every platform.
    pub fn folder(&self, folder: Folder) -> (path: &str)
        ensures
            path@ == self.spec_folder(folder),
    {
        match folder {
            Folder::Received => self.received_dir.as_str(),
            Folder::Sent => self.sent_dir.as_str(),
            Folder::Stocks => self.stocks_dir.as_str(),
            Folder::Templates => self.templates_dir.as_str(),
            Folder::Assets => self.assets_dir.as_str(),
            Folder::Config => self.config_dir.as_str(),
        }
    }

    /// The directories `initialize` creates, in the order it creates them:
    /// the configuration's, the log's, and then every folder of the
    /// operator's.
    pub fn directories(&self) -> (dirs: Vec<String>)
        ensures
            dirs@.len() == 7,
            dirs@[0]@ == self@.config_dir,
            dirs@[1]@ == parent_dir(self@.log_file),
            dirs@[2]@ == self@.templates_dir,
            dirs@[3]@ == self@.assets_dir,
            dirs@[4]@ == self@.stocks_dir,
            dirs@[5]@ == self@.sent_dir,
            dirs@[6]@ == self@.received_dir,
    {
        let mut dirs: Vec<String> = Vec::new();
        dirs.push(self.config_dir.clone());
        dirs.push(parent(self.log_file.as_str()));
        dirs.push(self.templates_dir.clone());
        dirs.push(self.assets_dir.clone());
        dirs.push(self.stocks_dir.clone());
        dirs.push(self.sent_dir.clone());
        dirs.push(self.received_dir.clone());
        dirs
    }
}

/// The log describes one machine's hardware, so it is kept under the state
/// root the platform names for that machine, whatever the other roots are.
pub proof fn lemma_log_is_under_the_state_root(
    config_dir: Seq<char>,
    data_dir: Seq<char>,
    pictures_dir: Seq<char>,
    state_dir: Seq<char>,
)
    ensures
        layout(config_dir, data_dir, pictures_dir, state_dir).log_file.take(state_dir.len() as int)
            == state_dir,
{
    let logs = path_join(state_dir, "logs"@);
    assert(logs.take(state_dir.len() as int) == state_dir);
    let log = path_join(logs, "rssstv.log"@);
    assert(log.take(logs.len() as int) == logs);
    assert(log.take(state_dir.len() as int) == logs.take(state_dir.len() as int));
}

/// Each folder of the File menu opens the directory the layout keeps it in,
/// and no two of the folders kept under one root are the same directory:
/// the received, sent and stock pictures are the `Received`, `Sent` and
/// `Stocks` directories of the pictures root, the templates and assets the
/// `templates` and `assets` directories of the data root, and the
/// configuration the directory holding the configuration file.
pub proof fn lemma_each_folder_opens_its_own_directory(
    paths: AppPaths,
    config_dir: Seq<char>,
    data_dir: Seq<char>,
    pictures_dir: Seq<char>,
    state_dir: Seq<char>,
)
    requires
        paths@ == layout(config_dir, data_dir, pictures_dir, state_dir),
    ensures
        paths.spec_folder(Folder::Received) == path_join(pictures_dir, "Received"@),
        paths.spec_folder(Folder::Sent) == path_join(pictures_dir, "Sent"@),
        paths.spec_folder(Folder::Stocks) == path_join(pictures_dir, "Stocks"@),
        paths.spec_folder(Folder::Templates) == path_join(data_dir, "templates"@),
        paths.spec_folder(Folder::Assets) == path_join(data_dir, "assets"@),
        paths.spec_folder(Folder::Config) == parent_dir(path_join(config_dir, "config.toml"@)),
        paths.spec_folder(Folder::Received) != paths.spec_folder(Folder::Sent),
        paths.spec_folder(Folder::Received) != paths.spec_folder(Folder::Stocks),
        paths.spec_folder(Folder::Sent) != paths.spec_folder(Folder::Stocks),
        paths.spec_folder(Folder::Templates) != paths.spec_folder(Folder::Assets),
{
    reveal_strlit("Received");
    reveal_strlit("Sent");
    reveal_strlit("Stocks");
    reveal_strlit("templates");
    reveal_strlit("assets");
    let received = path_join(pictures_dir, "Received"@);
    let sent = path_join(pictures_dir, "Sent"@);
    let stocks = path_join(pictures_dir, "Stocks"@);
    assert(received.len() != sent.len());
    assert(received.len() != stocks.len());
    assert(sent.len() != stocks.len());
    assert(path_join(data_dir, "templates"@).len() != path_join(data_dir, "assets"@).len());
}

} // verus!
