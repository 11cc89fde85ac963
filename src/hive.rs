use vstd::prelude::*;
use vstd::string::StringExecFns;

verus! {

/// The hives of the store: the roots that every key path starts from.
#[derive(Debug, Clone, Copy, PartialEq, Eq, Structural)]
pub enum Hive {
    ClassesRoot,
    CurrentConfig,
    CurrentUser,
    CurrentUserLocalSettings,
    LocalMachine,
    PerformanceData,
    Users,
    /// A hive loaded from a file by the application.
    Application,
}

/// The name that a hive is shown by.
pub open spec fn hive_name(h: Hive) -> Seq<char> {
    match h {
        Hive::ClassesRoot => "HKEY_CLASSES_ROOT"@,
        Hive::CurrentConfig => "HKEY_CURRENT_CONFIG"@,
        Hive::CurrentUser => "HKEY_CURRENT_USER"@,
        Hive::CurrentUserLocalSettings => "HKEY_CURRENT_USER_LOCAL_SETTINGS"@,
        Hive::LocalMachine => "HKEY_LOCAL_MACHINE"@,
        Hive::PerformanceData => "HKEY_PERFORMANCE_DATA"@,
        Hive::Users => "HKEY_USERS"@,
        Hive::Application => "<App>"@,
    }
}

/// A key path shown under its hive: the hive's name, then a backslash and
/// the path unless the path is empty.
pub open spec fn key_display(h: Hive, path: Seq<char>) -> Seq<char> {
    if path.len() == 0 {
        hive_name(h)
    } else {
        hive_name(h) + "\\"@ + path
    }
}

impl Hive {
    /// The name that the hive is shown by.
    pub fn name(&self) -> (r: &'static str)
        ensures
            r@ == hive_name(*self),
    {
        match self {
            Hive::ClassesRoot => "HKEY_CLASSES_ROOT",
            Hive::CurrentConfig => "HKEY_CURRENT_CONFIG",
            Hive::CurrentUser => "HKEY_CURRENT_USER",
            Hive::CurrentUserLocalSettings => "HKEY_CURRENT_USER_LOCAL_SETTINGS",
            Hive::LocalMachine => "HKEY_LOCAL_MACHINE",
            Hive::PerformanceData => "HKEY_PERFORMANCE_DATA",
            Hive::Users => "HKEY_USERS",
            Hive::Application => "<App>",
        }
    }

    /// How a key at `path` under this hive is shown.
    pub fn display_key(&self, path: &str) -> (r: String)
        ensures
            r@ == key_display(*self, path@),
    {
        let mut out = String::from_str(self.name());
        if !path.is_empty() {
            out.append("\\");
            out.append(path);
        }
        out
    }
}

/// The path of a subkey: the parent's path, a backslash, the subkey's path.
pub fn join_key_path(parent: &str, child: &str) -> (r: String)
    ensures
        r@ == parent@ + "\\"@ + child@,
{
    let mut out = String::from_str(parent);
    out.append("\\");
    out.append(child);
    out
}

} // verus!
