use vstd::prelude::*;
use vstd::string::*;

verus! {

/// What a command is for: starting a transaction (install) or reversing one
/// (purge).
#[derive(Clone, Copy, PartialEq, Eq, Structural, Debug)]
pub enum TType {
    Transaction,
    Rollback,
}

/// Why a command could not be built.
#[derive(Clone, Copy, PartialEq, Eq, Structural, Debug)]
pub enum BuildError {
    /// Building with no packages is a caller error, rejected before any
    /// process is spawned.
    EmptyPackages,
}

/// A command for the system package manager, held as plain data: the
/// program, its subcommand, and its arguments with the non-interactive flag
/// first. Nothing here touches a process; running it is a separate step.
pub struct TransactionCommand {
    pub apt_command: String,
    pub apt_subcommand: String,
    pub packages: Vec<String>,
}

/// The subcommand verb a transaction type calls for.
pub open spec fn subcommand_of(t: TType) -> Seq<char> {
    match t {
        TType::Transaction => "install"@,
        TType::Rollback => "purge"@,
    }
}

impl TransactionCommand {
    /// A fresh command for the package manager: `apt-get`, the verb for `t`,
    /// and the non-interactive flag as the only argument so far.
    pub fn new(t: TType) -> (c: TransactionCommand)
        ensures
            c.apt_command@ == "apt-get"@,
            c.apt_subcommand@ == subcommand_of(t),
            c.packages@.len() == 1,
            c.packages@[0]@ == "-y"@,
    {
        let subcom = if t == TType::Transaction {
            String::from_str("install")
        } else {
            String::from_str("purge")
        };
        let mut packages: Vec<String> = Vec::new();
        packages.push(String::from_str("-y"));
        TransactionCommand {
            apt_command: String::from_str("apt-get"),
            apt_subcommand: subcom,
            packages,
        }
    }

    /// Moves every package of `packages`, in order, to the end of the
    /// argument list, leaving `packages` empty.
    pub fn add_packages(&mut self, packages: &mut Vec<String>)
        ensures
            final(self).packages@ == old(self).packages@ + old(packages)@,
            final(packages)@ == Seq::<String>::empty(),
            final(self).apt_command == old(self).apt_command,
            final(self).apt_subcommand == old(self).apt_subcommand,
    {
        self.packages.append(packages);
    }
}

/// Builds the executable command description for `intent` over `packages`:
/// the package-manager program, the verb for the intent, and arguments that
/// begin with the non-interactive flag followed by exactly the given
/// packages in order. An empty package list is rejected, and only then.
pub fn build(intent: TType, packages: &Vec<String>) -> (r: Result<TransactionCommand, BuildError>)
    ensures
        packages@.len() == 0 <==> r == Err::<TransactionCommand, BuildError>(
            BuildError::EmptyPackages,
        ),
        packages@.len() > 0 ==> (r matches Ok(c) && {
            &&& c.apt_command@ == "apt-get"@
            &&& c.apt_subcommand@ == subcommand_of(intent)
            &&& c.packages@.len() == packages@.len() + 1
            &&& c.packages@[0]@ == "-y"@
            &&& forall|k: int|
                0 <= k < packages@.len() ==> c.packages@[k + 1]@ == (#[trigger] packages@[k])@
        }),
{
    if packages.len() == 0 {
        return Err(BuildError::EmptyPackages);
    }
    let mut c = TransactionCommand::new(intent);
    let mut rest: Vec<String> = Vec::new();
    let mut k: usize = 0;
    while k < packages.len()
        invariant
            k <= packages@.len(),
            rest@.len() == k,
            forall|j: int| 0 <= j < k ==> rest@[j]@ == (#[trigger] packages@[j])@,
        decreases packages@.len() - k,
    {
        rest.push(packages[k].clone());
        k += 1;
    }
    c.add_packages(&mut rest);
    Ok(c)
}

} // verus!
