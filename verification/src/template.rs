//! The commented `forja.toml` scaffold that `forja init` writes.
use vstd::prelude::*;
use crate::error::{Failure, ForjaError};

verus! {

/// The commented `forja.toml` scaffold written by `forja init`.
///
/// Only `version` is active; everything else is commented out. `init` never
/// invents a name, email, or preference on the user's behalf; it just shows
/// the shape of the file and the defaults.
pub const DEFAULT_TEMPLATE: &'static str = "# forja.toml
version = \"1\"

# [git]
# user_name      = \"Your Name\"
# user_email     = \"you@example.com\"
# default_branch = \"main\"
# editor         = \"nvim\"
# pull_rebase    = true

# [git.aliases]
# st = \"status -sb\"
# lg = \"log --oneline --graph --decorate --all\"

# [flow]
# strategy           = \"rebase\"        # \"rebase\" or \"merge\"
# auto_push          = true
# protected_branches = [\"main\", \"master\"]
";

/// Whether `forja init` may write its scaffold to `path`, given whether a
/// file is `present` there: not over an existing file, unless `force` is
/// given.
pub fn check_init_target(path: &str, present: bool, force: bool) -> (res: Result<(), ForjaError>)
    ensures
        res is Err <==> present && !force,
        res matches Err(e) ==> e@ == (Failure::ConfigAlreadyExists { path: path@ }),
{
    if present && !force {
        Err(ForjaError::ConfigAlreadyExists { path: path.to_owned() })
    } else {
        Ok(())
    }
}

} // verus!
