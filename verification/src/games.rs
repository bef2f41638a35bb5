//! The games that are known, and where a game keeps its files.

use vstd::prelude::*;
use vstd::string::StringExecFns;
use crate::applauncher::{render, rendered};
use crate::error::ToryggError;
use crate::tree::{path_clone, RelPath};
use crate::vdf::{get, last_value, push_char, Pairs};

verus! {

/// A game of the Steam store: its id there, and the name of the directory
/// that it is installed into.
#[derive(Debug)]
pub struct SteamApp {
    pub appid: usize,
    pub name: String,
}

/// The decimal digit for `d`.
pub open spec fn digit(d: nat) -> char {
    if d == 0 {
        '0'
    } else if d == 1 {
        '1'
    } else if d == 2 {
        '2'
    } else if d == 3 {
        '3'
    } else if d == 4 {
        '4'
    } else if d == 5 {
        '5'
    } else if d == 6 {
        '6'
    } else if d == 7 {
        '7'
    } else if d == 8 {
        '8'
    } else {
        '9'
    }
}

/// The number `n` written in decimal.
pub open spec fn decimal(n: nat) -> Seq<char>
    decreases n,
{
    if n < 10 {
        seq![digit(n)]
    } else {
        decimal(n / 10).push(digit(n % 10))
    }
}

fn digit_char(d: usize) -> (r: char)
    requires
        d < 10,
    ensures
        r == digit(d as nat),
{
    if d == 0 {
        '0'
    } else if d == 1 {
        '1'
    } else if d == 2 {
        '2'
    } else if d == 3 {
        '3'
    } else if d == 4 {
        '4'
    } else if d == 5 {
        '5'
    } else if d == 6 {
        '6'
    } else if d == 7 {
        '7'
    } else if d == 8 {
        '8'
    } else {
        '9'
    }
}

/// Writes a number in decimal.
pub fn to_decimal(n: usize) -> (r: String)
    ensures
        r@ == decimal(n as nat),
    decreases n,
{
    if n < 10 {
        let mut s = String::new();
        push_char(&mut s, digit_char(n));
        assert(s@ =~= seq![digit(n as nat)]);
        s
    } else {
        let mut s = to_decimal(n / 10);
        push_char(&mut s, digit_char(n % 10));
        s
    }
}

/// The game that `s` names, by the name of its directory or by its short name.
pub open spec fn app_named(s: Seq<char>) -> Option<(nat, Seq<char>)> {
    if s == "Skyrim"@ || s == "skyrim"@ {
        Some((72850, "Skyrim"@))
    } else if s == "Skyrim Special Edition"@ || s == "skyrimse"@ {
        Some((489830, "Skyrim Special Edition"@))
    } else {
        None
    }
}

/// The position of the first key among those from `k` on that names the
/// game: its fourth component is the game's id.
pub open spec fn library_key(pairs: Pairs, appid: Seq<char>, k: int) -> Option<int>
    decreases pairs.len() - k,
{
    if k < 0 || k >= pairs.len() {
        None
    } else if pairs[k].0.len() > 3 && pairs[k].0[3] == appid {
        Some(k)
    } else {
        library_key(pairs, appid, k + 1)
    }
}

/// The path of the library that holds the game, as the library file gives it:
/// the value of `path` in the group of the first library that lists the game.
pub open spec fn library_of(pairs: Pairs, appid: Seq<char>) -> Option<Seq<char>> {
    match library_key(pairs, appid, 0) {
        Some(k) => last_value(pairs, pairs[k].0.take(2).push("path"@), pairs.len() as int),
        None => None,
    }
}

impl SteamApp {
    pub fn skyrim() -> (r: SteamApp)
        ensures
            r.appid == 72850,
            r.name@ == "Skyrim"@,
    {
        SteamApp { appid: 72850, name: String::from_str("Skyrim") }
    }

    pub fn skyrim_special_edition() -> (r: SteamApp)
        ensures
            r.appid == 489830,
            r.name@ == "Skyrim Special Edition"@,
    {
        SteamApp { appid: 489830, name: String::from_str("Skyrim Special Edition") }
    }

    /// The game that `s` names.
    pub fn from_name(s: &str) -> (r: Option<SteamApp>)
        ensures
            match app_named(s@) {
                Some((id, name)) => r is Some && r->0.appid == id && r->0.name@ == name,
                None => r is None,
            },
    {
        let name = s.to_owned();
        if name == String::from_str("Skyrim") || name == String::from_str("skyrim") {
            Some(SteamApp::skyrim())
        } else if name == String::from_str("Skyrim Special Edition") || name == String::from_str(
            "skyrimse",
        ) {
            Some(SteamApp::skyrim_special_edition())
        } else {
            None
        }
    }

    /// The directory that the game is installed into, in the library at `library`.
    pub fn install_path(&self, library: &Vec<String>) -> (r: Vec<String>)
        ensures
            r.deep_view() == library.deep_view() + seq!["steamapps"@, "common"@, self.name@],
    {
        let mut out = path_clone(library);
        let ghost base = out.deep_view();
        out.push(String::from_str("steamapps"));
        out.push(String::from_str("common"));
        out.push(self.name.clone());
        assert(out.deep_view() =~= base + seq!["steamapps"@, "common"@, self.name@]);
        out
    }

    /// The directory that the game is installed into, which has to exist.
    pub fn install_dir(&self, library: &Vec<String>, exists: bool) -> (r: Result<
        Vec<String>,
        ToryggError,
    >)
        ensures
            exists ==> r is Ok && r->Ok_0.deep_view() == library.deep_view() + seq![
                "steamapps"@,
                "common"@,
                self.name@,
            ],
            !exists ==> r is Err && r->Err_0 is DirectoryNotFound && r->Err_0->DirectoryNotFound_0@
                == rendered(library.deep_view() + seq!["steamapps"@, "common"@, self.name@]),
    {
        let path = self.install_path(library);
        if exists {
            Ok(path)
        } else {
            Err(ToryggError::DirectoryNotFound(render(&path)))
        }
    }

    /// The Wine prefix of the game, which has to exist.
    pub fn wine_pfx(&self, library: &Vec<String>, exists: bool) -> (r: Result<
        Vec<String>,
        ToryggError,
    >)
        ensures
            exists ==> r is Ok && r->Ok_0.deep_view() == library.deep_view() + seq![
                "steamapps"@,
                "compatdata"@,
                decimal(self.appid as nat),
                "pfx"@,
            ],
            !exists ==> r is Err && r->Err_0 == ToryggError::PrefixNotFound,
    {
        let path = self.wine_pfx_path(library);
        if exists {
            Ok(path)
        } else {
            Err(ToryggError::PrefixNotFound)
        }
    }

    /// The Wine prefix of the game, in the library at `library`.
    pub fn wine_pfx_path(&self, library: &Vec<String>) -> (r: Vec<String>)
        ensures
            r.deep_view() == library.deep_view() + seq![
                "steamapps"@,
                "compatdata"@,
                decimal(self.appid as nat),
                "pfx"@,
            ],
    {
        let mut out = path_clone(library);
        let ghost base = out.deep_view();
        out.push(String::from_str("steamapps"));
        out.push(String::from_str("compatdata"));
        out.push(to_decimal(self.appid));
        out.push(String::from_str("pfx"));
        assert(out.deep_view() =~= base + seq![
            "steamapps"@,
            "compatdata"@,
            decimal(self.appid as nat),
            "pfx"@,
        ]);
        out
    }
}

/// Finds the library that holds the game in the pairs of Steam's library
/// file, whose keys read `libraryfolders/<library>/apps/<id>` for each game
/// and `libraryfolders/<library>/path` for each library.
pub fn steam_library(app: &SteamApp, kvs: &Vec<(Vec<String>, String)>) -> (r: Result<
    String,
    ToryggError,
>)
    ensures
        match library_of(kvs.deep_view(), decimal(app.appid as nat)) {
            Some(path) => r is Ok && r->Ok_0@ == path,
            None => r is Err && r->Err_0 == ToryggError::SteamLibraryNotFound,
        },
{
    let id = to_decimal(app.appid);
    let mut k: usize = 0;
    while k < kvs.len()
        invariant
            0 <= k <= kvs.len(),
            id@ == decimal(app.appid as nat),
            library_key(kvs.deep_view(), id@, 0) == library_key(kvs.deep_view(), id@, k as int),
        decreases kvs.len() - k,
    {
        let key = &kvs[k].0;
        assert(kvs.deep_view()[k as int].0 == key.deep_view());
        assert(key.deep_view().len() == key.len());
        if key.len() > 3 {
            assert(key.deep_view()[3] == key@[3]@);
            if key[3] == id {
                let mut path: Vec<String> = Vec::new();
                path.push(key[0].clone());
                path.push(key[1].clone());
                path.push(String::from_str("path"));
                assert(key.deep_view()[0] == key@[0]@);
                assert(key.deep_view()[1] == key@[1]@);
                assert(path.deep_view() =~= key.deep_view().take(2).push("path"@));
                return match get(kvs, &path) {
                    Some(v) => Ok(v.clone()),
                    None => Err(ToryggError::SteamLibraryNotFound),
                };
            }
        }
        k += 1;
    }
    Err(ToryggError::SteamLibraryNotFound)
}

/// The user directory inside a Wine prefix, decided from what was found on
/// disk. A directory named by the environment comes first and has to exist;
/// then `steamuser`, the user that Proton runs as; then the directory of the
/// current user, which has to exist.
pub open spec fn user_dir_of(
    named: Option<(RelPath, bool)>,
    pfx: RelPath,
    steamuser_exists: bool,
    user: Option<(Seq<char>, bool)>,
) -> Option<RelPath> {
    let users = pfx + seq!["drive_c"@, "users"@];
    match named {
        Some((path, exists)) => if exists {
            Some(path)
        } else {
            None
        },
        None => if steamuser_exists {
            Some(users.push("steamuser"@))
        } else {
            match user {
                Some((name, exists)) => if exists {
                    Some(users.push(name))
                } else {
                    None
                },
                None => None,
            }
        },
    }
}

/// The directory that holds the users of a Wine prefix.
pub fn users_dir(pfx: &Vec<String>) -> (r: Vec<String>)
    ensures
        r.deep_view() == pfx.deep_view() + seq!["drive_c"@, "users"@],
{
    let mut out = path_clone(pfx);
    let ghost base = out.deep_view();
    out.push(String::from_str("drive_c"));
    out.push(String::from_str("users"));
    assert(out.deep_view() =~= base + seq!["drive_c"@, "users"@]);
    out
}

/// Decides on the Windows user directory inside the Wine prefix `pfx`.
/// `named` is the directory that the environment names, if it names one, and
/// `user` the name of the current user, if it is known, each with whether
/// the directory exists.
pub fn wine_user_dir(
    named: Option<(Vec<String>, bool)>,
    pfx: &Vec<String>,
    steamuser_exists: bool,
    user: Option<(String, bool)>,
) -> (r: Result<Vec<String>, ToryggError>)
    ensures
        match user_dir_of(
            match named {
                Some(n) => Some((n.0.deep_view(), n.1)),
                None => None,
            },
            pfx.deep_view(),
            steamuser_exists,
            match user {
                Some(u) => Some((u.0@, u.1)),
                None => None,
            },
        ) {
            Some(dir) => r is Ok && r->Ok_0.deep_view() == dir,
            None => r is Err,
        },
        r is Err ==> match named {
            Some(n) => r->Err_0 is DirectoryNotFound && r->Err_0->DirectoryNotFound_0@ == rendered(
                n.0.deep_view(),
            ),
            None => match user {
                Some(u) => r->Err_0 is DirectoryNotFound && r->Err_0->DirectoryNotFound_0@
                    == rendered((pfx.deep_view() + seq!["drive_c"@, "users"@]).push(u.0@)),
                None => r->Err_0 is Other && r->Err_0->Other_0@ == "wine user dir not found"@,
            },
        },
{
    if let Some((path, exists)) = named {
        return if exists {
            Ok(path)
        } else {
            Err(ToryggError::DirectoryNotFound(render(&path)))
        };
    }
    let users = users_dir(pfx);
    let ghost base = users.deep_view();
    if steamuser_exists {
        let mut dir = users;
        dir.push(String::from_str("steamuser"));
        assert(dir.deep_view() =~= base.push("steamuser"@));
        return Ok(dir);
    }
    if let Some((name, exists)) = user {
        let mut dir = users;
        dir.push(name);
        assert(dir.deep_view() =~= base.push(name@));
        return if exists {
            Ok(dir)
        } else {
            Err(ToryggError::DirectoryNotFound(render(&dir)))
        };
    }
    Err(ToryggError::Other("wine user dir not found".to_owned()))
}

/// Where a game keeps its files.
pub trait Game {
    /// The directory that the game is installed into.
    fn install_dir(&self) -> Result<Vec<String>, ToryggError>;

    /// The Wine prefix that the game runs in.
    fn wine_pfx(&self) -> Result<Vec<String>, ToryggError>;

    /// The name of the game.
    fn name(&self) -> String;

    /// The Windows user directory in the Wine prefix.
    fn wine_user_dir(&self) -> Result<Vec<String>, ToryggError>;

    /// The directory of the game's configuration.
    fn config_dir(&self) -> Result<Vec<String>, ToryggError>;

    /// The directory of the game's application data.
    fn appdata_dir(&self) -> Result<Vec<String>, ToryggError>;
}

/// A game of the Steam store whose library and user directory were found.
pub struct Located {
    pub app: SteamApp,
    pub library: Vec<String>,
    pub user_dir: Vec<String>,
}

impl Located {
    /// The directory of the game's configuration in the user directory.
    pub fn config_path(&self) -> (r: Vec<String>)
        ensures
            r.deep_view() == self.user_dir.deep_view() + seq![
                "My Documents"@,
                "My Games"@,
                self.app.name@,
            ],
    {
        let mut out = path_clone(&self.user_dir);
        let ghost base = out.deep_view();
        out.push(String::from_str("My Documents"));
        out.push(String::from_str("My Games"));
        out.push(self.app.name.clone());
        assert(out.deep_view() =~= base + seq!["My Documents"@, "My Games"@, self.app.name@]);
        out
    }

    /// The directory of the game's application data in the user directory.
    pub fn appdata_path(&self) -> (r: Vec<String>)
        ensures
            r.deep_view() == self.user_dir.deep_view() + seq![
                "Local Settings"@,
                "Application Data"@,
                self.app.name@,
            ],
    {
        let mut out = path_clone(&self.user_dir);
        let ghost base = out.deep_view();
        out.push(String::from_str("Local Settings"));
        out.push(String::from_str("Application Data"));
        out.push(self.app.name.clone());
        assert(out.deep_view() =~= base + seq![
            "Local Settings"@,
            "Application Data"@,
            self.app.name@,
        ]);
        out
    }
}

impl Game for Located {
    fn install_dir(&self) -> (r: Result<Vec<String>, ToryggError>)
        ensures
            r is Ok,
            r->Ok_0.deep_view() == self.library.deep_view() + seq![
                "steamapps"@,
                "common"@,
                self.app.name@,
            ],
    {
        Ok(self.app.install_path(&self.library))
    }

    fn wine_pfx(&self) -> (r: Result<Vec<String>, ToryggError>)
        ensures
            r is Ok,
            r->Ok_0.deep_view() == self.library.deep_view() + seq![
                "steamapps"@,
                "compatdata"@,
                decimal(self.app.appid as nat),
                "pfx"@,
            ],
    {
        Ok(self.app.wine_pfx_path(&self.library))
    }

    fn name(&self) -> (r: String)
        ensures
            r@ == self.app.name@,
    {
        self.app.name.clone()
    }

    fn wine_user_dir(&self) -> (r: Result<Vec<String>, ToryggError>)
        ensures
            r is Ok,
            r->Ok_0.deep_view() == self.user_dir.deep_view(),
    {
        Ok(path_clone(&self.user_dir))
    }

    fn config_dir(&self) -> (r: Result<Vec<String>, ToryggError>)
        ensures
            r is Ok,
            r->Ok_0.deep_view() == self.user_dir.deep_view() + seq![
                "My Documents"@,
                "My Games"@,
                self.app.name@,
            ],
    {
        Ok(self.config_path())
    }

    fn appdata_dir(&self) -> (r: Result<Vec<String>, ToryggError>)
        ensures
            r is Ok,
            r->Ok_0.deep_view() == self.user_dir.deep_view() + seq![
                "Local Settings"@,
                "Application Data"@,
                self.app.name@,
            ],
    {
        Ok(self.appdata_path())
    }
}

} // verus!
