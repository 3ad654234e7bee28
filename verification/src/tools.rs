//! Running Il2CppDumper as an external process, and refusing to if it is not
//! the build we pinned.
//!
//! The dumper is kept external and pinned by digest: upgrading is a one-line
//! change to `tools.lock.json` that anyone can see, and a binary that does
//! not match the pin never runs. What is here decides; starting the process and
//! reading its files is left to the program around it.

use vstd::prelude::*;

use crate::error::{agrees, Error, ErrorView, Result};
use crate::numbers::{decimal, decimal_text};
use crate::sha256::{digest, hex_of, to_hex, Sha256};
use crate::text::{
    chars_of, contains, has_part, lower, lowered, same_text, string_of, trim, trimmed,
};

verus! {

/// What `tools.lock.json` says of the dumper.
#[derive(Debug)]
pub struct DumperPin {
    pub tag: String,
    pub supported_metadata_versions: String,
    /// The pinned binaries, the preferred one first: the 64-bit dumper, and
    /// then the 32-bit one for hosts that cannot run it. Neither choice depends
    /// on the game's architecture.
    pub binaries: Vec<PinnedBinary>,
}

#[derive(Debug)]
pub struct PinnedBinary {
    pub path: String,
    pub size: u64,
    pub sha256: String,
}

/// Whether a file of this size may be the pinned binary.
pub open spec fn size_verdict(path: Seq<char>, size: u64, pinned: u64) -> std::result::Result<
    (),
    ErrorView,
> {
    if size == pinned {
        Ok(())
    } else {
        Err(
            ErrorView::Tool(
                path + " is "@ + decimal(size as int) + " bytes but tools.lock.json pins "@
                    + decimal(pinned as int) + ". Refusing to run an unpinned binary."@,
            ),
        )
    }
}

/// Whether a file with these bytes is the pinned binary. The pin may be written
/// in capitals.
pub open spec fn digest_verdict(path: Seq<char>, bytes: Seq<u8>, pinned: Seq<char>) -> std::result::Result<
    (),
    ErrorView,
> {
    let actual = hex_of(digest(bytes));
    if actual == lower(pinned) {
        Ok(())
    } else {
        Err(
            ErrorView::Tool(
                path + " does not match its pin.\n  expected "@ + pinned + "\n  actual   "@ + actual
                    + "\nRefusing to run it. Re-install with tools/fetch-il2cppdumper.ps1, or update tools.lock.json deliberately if you meant to change versions."@,
            ),
        )
    }
}

/// Refuses a binary by its size, before anything of it is read.
pub fn check_size(path: &str, size: u64, expected: &PinnedBinary) -> (r: Result<()>)
    ensures
        agrees(r, size_verdict(path@, size, expected.size)),
{
    if size != expected.size {
        let mut message = path.to_owned();
        message.append(" is ");
        message.append(decimal_text(size as i128).as_str());
        message.append(" bytes but tools.lock.json pins ");
        message.append(decimal_text(expected.size as i128).as_str());
        message.append(". Refusing to run an unpinned binary.");
        return Err(Error::tool(message));
    }
    Ok(())
}

/// Refuses a binary whose digest is not the pinned one.
pub fn check_digest(path: &str, bytes: &[u8], expected: &PinnedBinary) -> (r: Result<()>)
    ensures
        agrees(r, digest_verdict(path@, bytes@, expected.sha256@)),
{
    let mut hasher = Sha256::new();
    hasher.update(bytes);
    assert(hasher@ =~= bytes@);
    let actual: String = to_hex(hasher.finish().as_slice());
    let wanted: String = lowered(expected.sha256.as_str());
    if !same_text(actual.as_str(), wanted.as_str()) {
        let mut message = path.to_owned();
        message.append(" does not match its pin.\n  expected ");
        message.append(expected.sha256.as_str());
        message.append("\n  actual   ");
        message.append(actual.as_str());
        message.append(
            "\nRefusing to run it. Re-install with tools/fetch-il2cppdumper.ps1, or update tools.lock.json deliberately if you meant to change versions.",
        );
        return Err(Error::tool(message));
    }
    Ok(())
}

/// Accepts a binary only if both its size and its digest are the pinned ones;
/// the size is looked at first.
pub fn verify_digest(path: &str, bytes: &[u8], expected: &PinnedBinary) -> (r: Result<()>)
    ensures
        agrees(
            r,
            match size_verdict(path@, bytes@.len() as u64, expected.size) {
                Ok(_) => digest_verdict(path@, bytes@, expected.sha256@),
                Err(e) => Err(e),
            },
        ),
        r is Ok <==> bytes@.len() == expected.size && hex_of(digest(bytes@)) == lower(
            expected.sha256@,
        ),
{
    check_size(path, bytes.len() as u64, expected)?;
    check_digest(path, bytes, expected)
}

/// The first of the candidates that is installed.
pub open spec fn first_installed_from(installed: Seq<bool>, k: int) -> Option<int>
    decreases installed.len() - k,
{
    if k < 0 || k >= installed.len() {
        None
    } else if installed[k] {
        Some(k)
    } else {
        first_installed_from(installed, k + 1)
    }
}

/// Which candidate to use, given for each its path and whether it is there.
pub open spec fn choice(tag: Seq<char>, dir: Seq<char>, candidates: Seq<(Seq<char>, bool)>) -> std::result::Result<
    int,
    ErrorView,
> {
    let installed = candidates.map_values(|c: (Seq<char>, bool)| c.1);
    match first_installed_from(installed, 0) {
        Some(k) => Ok(k),
        None => Err(
            ErrorView::Tool(
                "Il2CppDumper "@ + tag + " is not installed in "@ + dir + " ("@ + (
                if candidates.len() == 0 {
                    "no candidate binaries found"@
                } else {
                    candidates.last().0 + " is not installed"@
                }) + ").\nInstall it with:  pwsh tools/fetch-il2cppdumper.ps1"@,
            ),
        ),
    }
}

pub open spec fn candidate_views(candidates: Seq<(String, bool)>) -> Seq<(Seq<char>, bool)> {
    candidates.map_values(|c: (String, bool)| (c.0@, c.1))
}

/// Chooses the pinned binary to use: the first one that is installed.
pub fn choose_binary(pin: &DumperPin, dir: &str, candidates: &Vec<(String, bool)>) -> (r: Result<
    usize,
>)
    ensures
        match (r, choice(pin.tag@, dir@, candidate_views(candidates@))) {
            (Ok(k), Ok(wanted)) => k == wanted && k < candidates@.len(),
            (Err(error), Err(wanted)) => error@ == wanted,
            _ => false,
        },
{
    let ghost all = candidate_views(candidates@);
    let ghost installed = all.map_values(|c: (Seq<char>, bool)| c.1);
    let mut k: usize = 0;
    while k < candidates.len()
        invariant
            k <= candidates@.len(),
            all == candidate_views(candidates@),
            installed == all.map_values(|c: (Seq<char>, bool)| c.1),
            first_installed_from(installed, k as int) == first_installed_from(installed, 0),
        decreases candidates@.len() - k,
    {
        assert(installed[k as int] == candidates@[k as int].1);
        if candidates[k].1 {
            return Ok(k);
        }
        k += 1;
    }
    let mut message = "Il2CppDumper ".to_owned();
    message.append(pin.tag.as_str());
    message.append(" is not installed in ");
    message.append(dir);
    message.append(" (");
    let why: String = if candidates.len() == 0 {
        "no candidate binaries found".to_owned()
    } else {
        assert(all.last() == (candidates@.last().0@, candidates@.last().1));
        let mut text = candidates[candidates.len() - 1].0.clone();
        text.append(" is not installed");
        text
    };
    message.append(why.as_str());
    message.append(").\nInstall it with:  pwsh tools/fetch-il2cppdumper.ps1");
    Err(Error::tool(message))
}

/// The path of a binary whose digest has been verified.
pub struct VerifiedPath {
    path: String,
}

impl View for VerifiedPath {
    type V = Seq<char>;

    closed spec fn view(&self) -> Seq<char> {
        self.path@
    }
}

/// A dumper whose digest has been verified.
pub struct Dumper {
    pub executable: VerifiedPath,
    pub tag: String,
    pub supported_metadata_versions: String,
}

/// Whether a run of the dumper counts. It reports failures on stdout and still
/// exits 0, so the exit status alone is not enough.
pub open spec fn run_verdict(
    success: bool,
    status: Seq<char>,
    stdout: Seq<char>,
    stderr: Seq<char>,
    tag: Seq<char>,
    supported: Seq<char>,
) -> std::result::Result<(), ErrorView> {
    if !success {
        Err(
            ErrorView::Tool(
                "Il2CppDumper exited with "@ + status + ".\n--- output ---\n"@ + trim(stdout) + (
                if trim(stderr).len() == 0 {
                    ""@
                } else {
                    "\n--- stderr ---\n"@ + trim(stderr)
                }),
            ),
        )
    } else if contains(stdout, "ERROR:"@) || contains(stdout, "Exception"@) {
        Err(
            ErrorView::Tool(
                "Il2CppDumper reported a failure:\n"@ + trim(stdout)
                    + "\n\nIf this says the metadata version is unsupported, the pinned dumper ("@
                    + tag + ") is older than the game. It supports metadata "@ + supported + "."@,
            ),
        )
    } else {
        Ok(())
    }
}

/// Whether everything that a run has to write is there; the first that is not
/// is named.
pub open spec fn artifacts_verdict(
    dump_cs: bool,
    script_json: bool,
    il2cpp_h: bool,
    stdout: Seq<char>,
) -> std::result::Result<(), ErrorView> {
    let lost = |name: Seq<char>|
        ErrorView::Tool(
            "Il2CppDumper finished without writing "@ + name + ".\n--- output ---\n"@ + trim(
                stdout,
            ),
        );
    if !dump_cs {
        Err(lost("dump.cs"@))
    } else if !script_json {
        Err(lost("script.json"@))
    } else if !il2cpp_h {
        Err(lost("il2cpp.h"@))
    } else {
        Ok(())
    }
}

fn trimmed_text(text: &str) -> (r: String)
    ensures
        r@ == trim(text@),
{
    let chars: Vec<char> = chars_of(text);
    string_of(trimmed(chars.as_slice()))
}

fn not_written(name: &str, stdout: &str) -> (r: Error)
    ensures
        r@ == ErrorView::Tool(
            "Il2CppDumper finished without writing "@ + name@ + ".\n--- output ---\n"@ + trim(
                stdout@,
            ),
        ),
{
    let mut message = "Il2CppDumper finished without writing ".to_owned();
    message.append(name);
    message.append(".\n--- output ---\n");
    message.append(trimmed_text(stdout).as_str());
    Error::tool(message)
}

impl Dumper {
    /// The dumper at `executable`, once it has been verified against its pin.
    pub fn pinned(
        pin: DumperPin,
        index: usize,
        executable: String,
        bytes: &[u8],
    ) -> (r: Result<Self>)
        requires
            index < pin.binaries@.len(),
        ensures
            match r {
                Ok(dumper) => bytes@.len() == pin.binaries@[index as int].size && hex_of(
                    digest(bytes@),
                ) == lower(pin.binaries@[index as int].sha256@) && dumper.executable@ == executable@
                    && dumper.tag@ == pin.tag@ && dumper.supported_metadata_versions@
                    == pin.supported_metadata_versions@,
                Err(error) => match size_verdict(
                    executable@,
                    bytes@.len() as u64,
                    pin.binaries@[index as int].size,
                ) {
                    Err(wanted) => error@ == wanted,
                    Ok(_) => digest_verdict(
                        executable@,
                        bytes@,
                        pin.binaries@[index as int].sha256@,
                    ) == Err::<(), ErrorView>(error@),
                },
            },
    {
        verify_digest(executable.as_str(), bytes, &pin.binaries[index])?;
        Ok(
            Dumper {
                executable: VerifiedPath { path: executable },
                tag: pin.tag,
                supported_metadata_versions: pin.supported_metadata_versions,
            },
        )
    }

    pub fn executable(&self) -> (r: &str)
        ensures
            r@ == self.executable@,
    {
        self.executable.path.as_str()
    }

    /// Whether a run of the dumper counts.
    pub fn judge_run(&self, success: bool, status: &str, stdout: &str, stderr: &str) -> (r: Result<()>)
        ensures
            agrees(
                r,
                run_verdict(
                    success,
                    status@,
                    stdout@,
                    stderr@,
                    self.tag@,
                    self.supported_metadata_versions@,
                ),
            ),
    {
        if !success {
            let mut message = "Il2CppDumper exited with ".to_owned();
            message.append(status);
            message.append(".\n--- output ---\n");
            message.append(trimmed_text(stdout).as_str());
            let errors: String = trimmed_text(stderr);
            let tail: String = if errors.as_str().unicode_len() == 0 {
                "".to_owned()
            } else {
                let mut text = "\n--- stderr ---\n".to_owned();
                text.append(errors.as_str());
                text
            };
            message.append(tail.as_str());
            return Err(Error::tool(message));
        }
        let chars: Vec<char> = chars_of(stdout);
        if has_part(chars.as_slice(), "ERROR:") || has_part(chars.as_slice(), "Exception") {
            let mut message = "Il2CppDumper reported a failure:\n".to_owned();
            message.append(trimmed_text(stdout).as_str());
            message.append(
                "\n\nIf this says the metadata version is unsupported, the pinned dumper (",
            );
            message.append(self.tag.as_str());
            message.append(") is older than the game. It supports metadata ");
            message.append(self.supported_metadata_versions.as_str());
            message.append(".");
            return Err(Error::tool(message));
        }
        Ok(())
    }
}

/// Whether everything that a run has to write is there.
pub fn check_artifacts(dump_cs: bool, script_json: bool, il2cpp_h: bool, stdout: &str) -> (r: Result<
    (),
>)
    ensures
        agrees(r, artifacts_verdict(dump_cs, script_json, il2cpp_h, stdout@)),
{
    if !dump_cs {
        return Err(not_written("dump.cs", stdout));
    }
    if !script_json {
        return Err(not_written("script.json", stdout));
    }
    if !il2cpp_h {
        return Err(not_written("il2cpp.h", stdout));
    }
    Ok(())
}

/// The `config.json` that the dumper reads from its own directory.
///
/// `GenerateStruct` is what produces `script.json`, which is where the
/// type-info slots come from -- without it no signature can be built. The dummy
/// DLL export costs minutes and is never read.
pub const DUMPER_CONFIG: &'static str = "{\n  \"DumpMethod\": true,\n  \"DumpField\": true,\n  \"DumpProperty\": true,\n  \"DumpAttribute\": false,\n  \"DumpFieldOffset\": true,\n  \"DumpMethodOffset\": true,\n  \"DumpTypeDefIndex\": true,\n  \"GenerateDummyDll\": false,\n  \"GenerateStruct\": true,\n  \"DummyDllAddToken\": false,\n  \"RequireAnyKey\": false,\n  \"ForceIl2CppVersion\": false,\n  \"ForceVersion\": 16,\n  \"ForceDump\": false,\n  \"NoRedirectedPointer\": false\n}\n";

/// Why the dumper is not started where one of its inputs is not there.
pub fn missing_input(path: &str) -> (r: Error)
    ensures
        r@ == ErrorView::Usage(
            path@
                + " does not exist; point --game at an Among Us installation directory"@,
        ),
{
    let mut message = path.to_owned();
    message.append(" does not exist; point --game at an Among Us installation directory");
    Error::usage(message)
}

/// Whether a dump that is already there is used: when all of it is, and no new
/// one is asked for.
pub fn reuses_dump(dump_cs: bool, script_json: bool, il2cpp_h: bool, force: bool) -> (r: bool)
    ensures
        r == (dump_cs && script_json && il2cpp_h && !force),
{
    dump_cs && script_json && il2cpp_h && !force
}

/// Whether a game directory holds what is needed; the first file that is
/// missing is named.
pub open spec fn game_verdict(
    directory: Seq<char>,
    game_assembly: bool,
    metadata: bool,
    global_game_managers: bool,
) -> std::result::Result<(), ErrorView> {
    let lost = |label: Seq<char>|
        ErrorView::Usage(
            label + " is missing under "@ + directory
                + ". Point --game at the folder that contains GameAssembly.dll."@,
        );
    if !game_assembly {
        Err(lost("GameAssembly.dll"@))
    } else if !metadata {
        Err(lost("global-metadata.dat"@))
    } else if !global_game_managers {
        Err(lost("globalgamemanagers"@))
    } else {
        Ok(())
    }
}

fn missing_game_file(label: &str, directory: &str) -> (r: Error)
    ensures
        r@ == ErrorView::Usage(
            label@ + " is missing under "@ + directory@
                + ". Point --game at the folder that contains GameAssembly.dll."@,
        ),
{
    let mut message = label.to_owned();
    message.append(" is missing under ");
    message.append(directory);
    message.append(". Point --game at the folder that contains GameAssembly.dll.");
    Error::usage(message)
}

/// Whether a game directory holds what is needed.
pub fn check_game_files(
    directory: &str,
    game_assembly: bool,
    metadata: bool,
    global_game_managers: bool,
) -> (r: Result<()>)
    ensures
        agrees(r, game_verdict(directory@, game_assembly, metadata, global_game_managers)),
{
    if !game_assembly {
        return Err(missing_game_file("GameAssembly.dll", directory));
    }
    if !metadata {
        return Err(missing_game_file("global-metadata.dat", directory));
    }
    if !global_game_managers {
        return Err(missing_game_file("globalgamemanagers", directory));
    }
    Ok(())
}

/// Why `--out` is refused where there is no `lookup.json` in it. The message says
/// what the path resolved to: relative paths resolve against the current
/// directory while the generator's own files are found next to the executable.
pub fn not_an_offsets_repo(given: &str, resolved: &str) -> (r: Error)
    ensures
        r@ == ErrorView::Usage(
            "--out should point at a checkout of the offsets repository, but there is no lookup.json in it.\n  given:      "@
                + given@ + "\n  resolved to: "@ + resolved@
                + "\nExpected layout: <repo>/lookup.json and <repo>/offsets/x86/... . Relative paths are resolved against the current directory, so running from target\\release needs a different number of ..\\ than running from the project root."@,
        ),
{
    let mut message =
        "--out should point at a checkout of the offsets repository, but there is no lookup.json in it.\n  given:      ".to_owned();
    message.append(given);
    message.append("\n  resolved to: ");
    message.append(resolved);
    message.append(
        "\nExpected layout: <repo>/lookup.json and <repo>/offsets/x86/... . Relative paths are resolved against the current directory, so running from target\\release needs a different number of ..\\ than running from the project root.",
    );
    Error::usage(message)
}

/// A run of the dumper counts if and only if it exits with success and reports
/// no error on its output.
pub proof fn a_run_counts_only_without_errors(
    success: bool,
    status: Seq<char>,
    stdout: Seq<char>,
    stderr: Seq<char>,
    tag: Seq<char>,
    supported: Seq<char>,
)
    ensures
        run_verdict(success, status, stdout, stderr, tag, supported) is Ok <==> success
            && !contains(stdout, "ERROR:"@) && !contains(stdout, "Exception"@),
        run_verdict(success, status, stdout, stderr, tag, supported) matches Err(error)
            ==> error is Tool,
{
}

/// A run has written what it has to if and only if all three files are there.
pub proof fn a_run_writes_all_three_files(
    dump_cs: bool,
    script_json: bool,
    il2cpp_h: bool,
    stdout: Seq<char>,
)
    ensures
        artifacts_verdict(dump_cs, script_json, il2cpp_h, stdout) is Ok <==> dump_cs && script_json
            && il2cpp_h,
{
}

/// A game directory is accepted if and only if all three files are there.
pub proof fn a_game_has_all_three_files(
    directory: Seq<char>,
    game_assembly: bool,
    metadata: bool,
    global_game_managers: bool,
)
    ensures
        game_verdict(directory, game_assembly, metadata, global_game_managers) is Ok
            <==> game_assembly && metadata && global_game_managers,
{
}

/// A binary may run if and only if it has the pinned size and digest, whatever
/// the case of the letters the pin is written in.
pub proof fn only_the_pinned_binary_may_run(
    path: Seq<char>,
    bytes: Seq<u8>,
    size: u64,
    pinned_size: u64,
    pinned_digest: Seq<char>,
)
    ensures
        size_verdict(path, size, pinned_size) is Ok <==> size == pinned_size,
        digest_verdict(path, bytes, pinned_digest) is Ok <==> hex_of(digest(bytes)) == lower(
            pinned_digest,
        ),
        size_verdict(path, size, pinned_size) matches Err(error) ==> error is Tool,
        digest_verdict(path, bytes, pinned_digest) matches Err(error) ==> error is Tool,
{
}

proof fn lemma_first_installed(installed: Seq<bool>, k: int)
    requires
        0 <= k,
    ensures
        match first_installed_from(installed, k) {
            Some(i) => k <= i < installed.len() && installed[i] && forall|j: int|
                k <= j < i ==> !#[trigger] installed[j],
            None => forall|j: int| k <= j < installed.len() ==> !#[trigger] installed[j],
        },
    decreases installed.len() - k,
{
    if k < installed.len() && !installed[k] {
        lemma_first_installed(installed, k + 1);
    }
}

/// The first candidate that is there is chosen; where none is, that is an error.
pub proof fn the_first_candidate_that_is_there_is_chosen(
    tag: Seq<char>,
    dir: Seq<char>,
    candidates: Seq<(Seq<char>, bool)>,
)
    ensures
        match choice(tag, dir, candidates) {
            Ok(i) => 0 <= i < candidates.len() && candidates[i].1 && forall|j: int|
                0 <= j < i ==> !(#[trigger] candidates[j]).1,
            Err(error) => error is Tool && forall|j: int|
                0 <= j < candidates.len() ==> !(#[trigger] candidates[j]).1,
        },
{
    let installed = candidates.map_values(|c: (Seq<char>, bool)| c.1);
    lemma_first_installed(installed, 0);
    assert forall|j: int| 0 <= j < candidates.len() implies installed[j] == (
    #[trigger] candidates[j]).1 by {}
}

} // verus!
