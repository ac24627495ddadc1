//! Where the scheduler keeps its files, below its working directory.

use crate::command::execution_context::ResultId;
use vstd::prelude::*;
use vstd::string::StringExecFns;

verus! {

/// The character of the decimal digit `d`.
pub open spec fn digit(d: nat) -> char
    recommends
        d < 10,
{
    (48 + d) as u8 as char
}

/// The decimal digits of `n`, without sign and without leading zeros.
pub open spec fn decimal(n: nat) -> Seq<char>
    decreases n,
{
    if n < 10 {
        seq![digit(n)]
    } else {
        decimal(n / 10).push(digit(n % 10))
    }
}

/// `n` in decimal, as `to_string` of std writes an unsigned integer: its
/// digits, without sign, padding or leading zeros.
#[verifier::external_body]
fn decimal_string(n: u32) -> (s: String)
    ensures
        s@ == decimal(n as nat),
{
    n.to_string()
}

/// The name of a result: the program id and the timestamp, in decimal,
/// with an underscore between them.
pub open spec fn result_name(id: ResultId) -> Seq<char> {
    decimal(id.program_id as nat) + seq!['_'] + decimal(id.timestamp as nat)
}

impl ResultId {
    /// The name of this result, which is the name of its bundle and of the
    /// first entry in it.
    pub fn to_string(&self) -> (name: String)
        ensures
            name@ == result_name(*self),
    {
        let mut name = decimal_string(self.program_id as u32);
        proof {
            reveal_strlit("_");
        }
        name.append("_");
        name.append(decimal_string(self.timestamp).as_str());
        assert("_"@ =~= seq!['_']);
        name
    }
}

/// The directory into which the archive of the program `program_id` is
/// unpacked: `./archives/<program_id>`.
pub fn program_directory(program_id: u16) -> (path: String)
    ensures
        path@ == "./archives/"@ + decimal(program_id as nat),
{
    let mut path = String::from_str("./archives/");
    path.append(decimal_string(program_id as u32).as_str());
    path
}

/// The entry point of the program `program_id`:
/// `./archives/<program_id>/main.py`.
pub fn program_entry(program_id: u16) -> (path: String)
    ensures
        path@ == "./archives/"@ + decimal(program_id as nat) + "/main.py"@,
{
    let mut path = program_directory(program_id);
    path.append("/main.py");
    path
}

/// The file into which the archive of the program `program_id` is put
/// before it is unpacked: `./data/<program_id>.zip`.
pub fn archive_file(program_id: u16) -> (path: String)
    ensures
        path@ == "./data/"@ + decimal(program_id as nat) + ".zip"@,
{
    let mut path = String::from_str("./data/");
    path.append(decimal_string(program_id as u32).as_str());
    path.append(".zip");
    path
}

/// The file that the student program writes its result to:
/// `./archives/<program_id>/results/<timestamp>`.
pub fn result_file(id: ResultId) -> (path: String)
    ensures
        path@ == "./archives/"@ + decimal(id.program_id as nat) + "/results/"@ + decimal(
            id.timestamp as nat,
        ),
{
    let mut path = program_directory(id.program_id);
    path.append("/results/");
    path.append(decimal_string(id.timestamp).as_str());
    path
}

/// The bundle of one execution: `./data/<program_id>_<timestamp>`.
pub fn bundle_file(id: ResultId) -> (path: String)
    ensures
        path@ == "./data/"@ + result_name(id),
{
    let mut path = String::from_str("./data/");
    path.append(id.to_string().as_str());
    path
}

/// The file that takes the output of one execution:
/// `./data/<program_id>_<timestamp>.log`.
pub fn student_log_file(id: ResultId) -> (path: String)
    ensures
        path@ == "./data/"@ + result_name(id) + ".log"@,
{
    let mut path = bundle_file(id);
    path.append(".log");
    path
}

} // verus!
