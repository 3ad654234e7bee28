//! Facts about a game build: which version it is and what it broadcasts.

use vstd::prelude::*;
use vstd::slice::slice_subrange;

use crate::error::{agrees, agrees_in_view, Error, ErrorView, Result};
use crate::numbers::{decimal, decimal_text};
use crate::offsets::{or_zero, SigView, Signature};
use crate::pattern::{all_matches, pattern_of, pattern_text, text_round_trips, Pattern};
use crate::pe::{get32, le32, signed32, Image, ImageView};
use crate::siggen::{
    literal_signature, trustworthy, Expectation, GeneratedSignature, Resolution,
    SignatureGenerator, SignatureView,
};
use crate::text::{
    chars_of, index_of, joined, lemma_index_of, lemma_index_of_is, maybe_text, part_views, split,
    split_at_char,
};

verus! {

/// Version strings pulled out of `globalgamemanagers`.
#[derive(Debug, Clone)]
pub struct GameVersion {
    /// The game's own version, e.g. `2026.8.18` or `17.4.0`.
    pub game: String,
    /// The Unity version the build was made with, e.g. `2022.3.44f1`.
    pub unity: Option<String>,
}

/// What a [`GameVersion`] says.
pub struct GameVersionView {
    pub game: Seq<char>,
    pub unity: Option<Seq<char>>,
}

impl View for GameVersion {
    type V = GameVersionView;

    open spec fn view(&self) -> GameVersionView {
        GameVersionView {
            game: self.game@,
            unity: maybe_text(self.unity),
        }
    }
}

impl GameVersion {
    /// Name used for the offsets directory: `V` + version, matching the layout
    /// the client fetches from (`offsets/x86/V2026.8.18/offsets.json`).
    pub fn directory_name(&self) -> (r: String)
        ensures
            r@ == "V"@ + self@.game,
    {
        let mut name = "V".to_owned();
        name.append(self.game.as_str());
        name
    }

    /// The offsets file of this version, as `lookup.json` names it.
    pub fn offsets_file(&self) -> (r: String)
        ensures
            r@ == "V"@ + self@.game + "/offsets.json"@,
    {
        let mut name = self.directory_name();
        name.append("/offsets.json");
        name
    }
}

pub open spec fn is_digit(c: char) -> bool {
    '0' <= c && c <= '9'
}

pub open spec fn is_alphanumeric(c: char) -> bool {
    is_digit(c) || ('a' <= c && c <= 'z') || ('A' <= c && c <= 'Z')
}

/// One component of a version: digits, of which only the last component may be
/// followed by a build suffix, as in `44f1`.
pub open spec fn version_part(part: Seq<char>, is_last: bool) -> bool {
    &&& part.len() > 0
    &&& is_digit(part[0])
    &&& forall|i: int|
        0 <= i < part.len() ==> (if is_last {
            is_alphanumeric(#[trigger] part[i])
        } else {
            is_digit(part[i])
        })
}

/// `2026.8.18`, `17.4.0`, `2022.3.44f1`: three components, or four for hotfixes
/// such as `2023.3.28.1`.
pub open spec fn version_shaped(text: Seq<char>) -> bool {
    let parts = split(text, '.');
    &&& 3 <= parts.len() <= 4
    &&& forall|i: int|
        0 <= i < parts.len() ==> version_part(#[trigger] parts[i], i == parts.len() - 1)
}

pub open spec fn release_letter(c: char) -> bool {
    c == 'f' || c == 'b' || c == 'a' || c == 'p'
}

/// Unity tags releases as `<year>.<minor>.<patch><f|b|a|p><build>`.
pub open spec fn unity_shaped(text: Seq<char>) -> bool {
    let last = split(text, '.').last();
    exists|i: int| 0 <= i < last.len() && release_letter(#[trigger] last[i])
}

/// Bytes as the characters of the same numbers.
pub open spec fn as_chars(bytes: Seq<u8>) -> Seq<char> {
    Seq::new(bytes.len(), |i: int| bytes[i] as char)
}

/// The version string whose length prefix stands at `at`: a 32-bit length
/// followed by that many visible ASCII bytes.
pub open spec fn version_at(file: Seq<u8>, at: int) -> Option<Seq<char>> {
    let length = le32(file, at);
    if !(3 <= length <= 24) || at + 4 + length > file.len() {
        None
    } else {
        let raw = file.subrange(at + 4, at + 4 + length);
        if (forall|i: int| 0 <= i < raw.len() ==> 0x21 <= #[trigger] raw[i] <= 0x7e)
            && version_shaped(as_chars(raw)) {
            Some(as_chars(raw))
        } else {
            None
        }
    }
}

/// The first version string from `at` on that is a Unity version, or is not, as
/// `unity` says.
pub open spec fn first_version(file: Seq<u8>, unity: bool, at: int) -> Option<Seq<char>>
    decreases file.len() - at,
{
    if at + 4 >= file.len() {
        None
    } else {
        match version_at(file, at) {
            Some(text) => if unity_shaped(text) == unity {
                Some(text)
            } else {
                first_version(file, unity, at + 1)
            },
            None => first_version(file, unity, at + 1),
        }
    }
}

/// The versions that a `globalgamemanagers` file carries.
pub open spec fn game_version(file: Seq<u8>) -> std::result::Result<GameVersionView, ErrorView> {
    let unity = first_version(file, true, 0);
    match first_version(file, false, 0) {
        Some(game) => Ok(GameVersionView { game, unity }),
        None => Err(
            ErrorView::Malformed(
                "no game version string found in globalgamemanagers ("@ + decimal(
                    file.len() as int,
                ) + " bytes scanned"@ + (match unity {
                    Some(version) => ", Unity version "@ + version + " was found"@,
                    None => ""@,
                })
                    + "). Either the file is not from Among Us or Unity changed how the build version is stored."@,
            ),
        ),
    }
}

/// A version that is found is shaped like one, and is a Unity version or not as
/// was asked.
proof fn lemma_first_version(file: Seq<u8>, unity: bool, at: int)
    requires
        0 <= at,
    ensures
        first_version(file, unity, at) matches Some(text) ==> version_shaped(text) && unity_shaped(
            text,
        ) == unity,
    decreases file.len() - at,
{
    if at + 4 < file.len() {
        lemma_first_version(file, unity, at + 1);
    }
}

proof fn lemma_found_at(file: Seq<u8>, from: int, at: int)
    requires
        0 <= from <= at,
        at + 4 < file.len(),
        version_at(file, at) is Some,
        !unity_shaped(version_at(file, at)->0),
        forall|i: int|
            from <= i < at ==> (#[trigger] version_at(file, i) is None || unity_shaped(
                version_at(file, i)->0,
            )),
    ensures
        first_version(file, false, from) == version_at(file, at),
    decreases at - from,
{
    if from < at {
        assert(version_at(file, from) is None || unity_shaped(version_at(file, from)->0));
        lemma_found_at(file, from + 1, at);
    }
}

/// The game version is found wherever it stands in the file, and the Unity
/// version is never taken for it.
pub proof fn the_version_is_found_wherever_it_stands(file: Seq<u8>, at: int)
    requires
        0 <= at,
        at + 4 < file.len(),
        version_at(file, at) is Some,
        !unity_shaped(version_at(file, at)->0),
        forall|i: int|
            0 <= i < at ==> (#[trigger] version_at(file, i) is None || unity_shaped(
                version_at(file, i)->0,
            )),
    ensures
        game_version(file) is Ok,
        game_version(file)->Ok_0.game == version_at(file, at)->0,
        !unity_shaped(game_version(file)->Ok_0.game),
        game_version(file)->Ok_0.unity matches Some(unity) ==> unity_shaped(unity),
{
    lemma_found_at(file, 0, at);
    lemma_first_version(file, true, 0);
    lemma_first_version(file, false, 0);
}

fn fits_part(part: &[char], is_last: bool) -> (r: bool)
    ensures
        r == version_part(part@, is_last),
{
    if part.len() == 0 || !('0' <= part[0] && part[0] <= '9') {
        return false;
    }
    let mut i: usize = 0;
    while i < part.len()
        invariant
            i <= part@.len(),
            forall|j: int|
                0 <= j < i ==> (if is_last {
                    is_alphanumeric(#[trigger] part@[j])
                } else {
                    is_digit(part@[j])
                }),
        decreases part@.len() - i,
    {
        let c: char = part[i];
        let digit = '0' <= c && c <= '9';
        let letter = ('a' <= c && c <= 'z') || ('A' <= c && c <= 'Z');
        if !(digit || (is_last && letter)) {
            assert(!(if is_last {
                is_alphanumeric(part@[i as int])
            } else {
                is_digit(part@[i as int])
            }));
            return false;
        }
        i += 1;
    }
    true
}

fn chars_look_like_a_version(text: &[char]) -> (r: bool)
    ensures
        r == version_shaped(text@),
{
    let parts = split_at_char(text, '.');
    let ghost all = split(text@, '.');
    assert(all.len() == parts@.len());
    if parts.len() < 3 || parts.len() > 4 {
        return false;
    }
    let mut index: usize = 0;
    while index < parts.len()
        invariant
            index <= parts@.len(),
            part_views(parts@) == all,
            all == split(text@, '.'),
            forall|i: int|
                0 <= i < index ==> version_part(#[trigger] all[i], i == all.len() - 1),
        decreases parts@.len() - index,
    {
        assert(all[index as int] == parts@[index as int]@);
        if !fits_part(parts[index], index == parts.len() - 1) {
            assert(!version_part(all[index as int], index == all.len() - 1));
            return false;
        }
        index += 1;
    }
    true
}

/// `2026.8.18`, `17.4.0`, `2022.3.44f1` -- digits and dots, at least two dots,
/// optionally a Unity-style build suffix.
pub fn looks_like_a_version(text: &str) -> (r: bool)
    ensures
        r == version_shaped(text@),
{
    let chars: Vec<char> = chars_of(text);
    chars_look_like_a_version(chars.as_slice())
}

fn chars_are_a_unity_version(text: &[char]) -> (r: bool)
    ensures
        r == unity_shaped(text@),
{
    let parts = split_at_char(text, '.');
    let ghost all = split(text@, '.');
    let last = parts[parts.len() - 1];
    assert(all.last() == part_views(parts@)[parts@.len() - 1]);
    assert(last@ == all.last());
    let mut i: usize = 0;
    while i < last.len()
        invariant
            i <= last@.len(),
            last@ == split(text@, '.').last(),
            forall|j: int| 0 <= j < i ==> !release_letter(#[trigger] last@[j]),
        decreases last@.len() - i,
    {
        let c: char = last[i];
        if c == 'f' || c == 'b' || c == 'a' || c == 'p' {
            assert(release_letter(last@[i as int]));
            return true;
        }
        i += 1;
    }
    false
}

pub fn is_unity_version(text: &str) -> (r: bool)
    ensures
        r == unity_shaped(text@),
{
    let chars: Vec<char> = chars_of(text);
    chars_are_a_unity_version(chars.as_slice())
}

/// The view of optional characters.
pub open spec fn maybe_chars(s: Option<Vec<char>>) -> Option<Seq<char>> {
    match s {
        Some(s) => Some(s@),
        None => None,
    }
}

fn read_version_at(file: &[u8], at: usize) -> (r: Option<Vec<char>>)
    requires
        at + 4 <= file@.len(),
    ensures
        maybe_chars(r) == version_at(file@, at as int),
{
    let limit: usize = file.len();
    let length: u32 = get32(file, at);
    if length < 3 || length > 24 || length as usize > limit - at - 4 {
        return None;
    }
    let raw = slice_subrange(file, at + 4, at + 4 + length as usize);
    let mut text: Vec<char> = Vec::new();
    let mut i: usize = 0;
    while i < raw.len()
        invariant
            i <= raw@.len(),
            raw@ == file@.subrange(at + 4, at + 4 + length),
            length == le32(file@, at as int),
            3 <= length <= 24,
            at + 4 + length <= file@.len(),
            text@ == as_chars(raw@.take(i as int)),
            forall|j: int| 0 <= j < i ==> 0x21 <= #[trigger] raw@[j] <= 0x7e,
        decreases raw@.len() - i,
    {
        let byte: u8 = raw[i];
        if byte < 0x21 || byte > 0x7e {
            assert(!(0x21 <= raw@[i as int] <= 0x7e));
            return None;
        }
        text.push(byte as char);
        i += 1;
        assert(text@ =~= as_chars(raw@.take(i as int)));
    }
    assert(raw@.take(raw@.len() as int) =~= raw@);
    if chars_look_like_a_version(text.as_slice()) {
        Some(text)
    } else {
        None
    }
}

fn find_version(file: &[u8], unity: bool) -> (r: Option<String>)
    ensures
        maybe_text(r) == first_version(file@, unity, 0),
{
    let limit: usize = file.len();
    let mut at: usize = 0;
    while at < limit && limit - at > 4
        invariant
            limit == file@.len(),
            at <= limit,
            first_version(file@, unity, at as int) == first_version(file@, unity, 0),
        decreases limit - at,
    {
        if let Some(text) = read_version_at(file, at) {
            if chars_are_a_unity_version(text.as_slice()) == unity {
                return Some(crate::text::string_of(text.as_slice()));
            }
        }
        at += 1;
    }
    None
}

/// Extracts the game version from a `globalgamemanagers` file.
///
/// The whole file is scanned for Unity's own encoding -- a 32-bit little-endian
/// length followed by that many ASCII bytes -- and the candidates are filtered
/// by shape. That is what the format actually guarantees, so it survives the
/// next layout change.
pub fn read_game_version(global_game_managers: &[u8]) -> (r: Result<GameVersion>)
    ensures
        agrees_in_view(r, game_version(global_game_managers@)),
{
    let unity: Option<String> = find_version(global_game_managers, true);
    match find_version(global_game_managers, false) {
        Some(game) => Ok(GameVersion { game, unity }),
        None => {
            let mut message = "no game version string found in globalgamemanagers (".to_owned();
            message.append(decimal_text(global_game_managers.len() as i128).as_str());
            message.append(" bytes scanned");
            let found: String = match unity {
                Some(version) => {
                    let mut text = ", Unity version ".to_owned();
                    text.append(version.as_str());
                    text.append(" was found");
                    text
                },
                None => "".to_owned(),
            };
            message.append(found.as_str());
            message.append(
                "). Either the file is not from Among Us or Unity changed how the build version is stored.",
            );
            Err(Error::malformed(message))
        },
    }
}

/// The broadcast version that a pattern gives: the integer at its first match,
/// moved by the two offsets.
pub open spec fn broadcast_version(
    image: ImageView,
    pattern: Seq<Option<u8>>,
    pattern_offset: int,
    address_offset: int,
) -> std::result::Result<i32, ErrorView> {
    let sites = all_matches(pattern, image.mapped);
    if sites.len() == 0 {
        Err(
            ErrorView::Malformed(
                "the broadcast-version signature for "@ + image.arch.name()
                    + " did not match this build. It is stored in lookup.json rather than generated, so it has to be refreshed by hand when the game's version check is recompiled."@,
            ),
        )
    } else {
        let location = sites[0] + pattern_offset + address_offset;
        if location < 0 || location + 4 > image.mapped.len() {
            Err(ErrorView::Malformed("broadcast-version signature points outside the image"@))
        } else {
            let value = signed32(le32(image.mapped, location));
            if value <= 0 {
                Err(
                    ErrorView::Malformed(
                        "broadcast version read as "@ + decimal(value) + ", which cannot be right"@,
                    ),
                )
            } else {
                Ok(value as i32)
            }
        }
    }
}

/// Reads the broadcast version -- the integer the client uses as the lookup key.
///
/// `patternOffset` points at the immediate holding the value; the client reads
/// it with `getLocation`, so this is a straight `int` read at that RVA rather
/// than a pointer walk.
pub fn read_broadcast_version(
    image: &Image,
    pattern: &Pattern,
    pattern_offset: i64,
    address_offset: i64,
) -> (r: Result<i32>)
    ensures
        agrees(
            r,
            broadcast_version(image@, pattern@, pattern_offset as int, address_offset as int),
        ),
{
    let found: Vec<usize> = pattern.find_all(image.mapped(), 8);
    if found.len() == 0 {
        let mut message = "the broadcast-version signature for ".to_owned();
        message.append(image.arch().dir_name());
        message.append(
            " did not match this build. It is stored in lookup.json rather than generated, so it has to be refreshed by hand when the game's version check is recompiled.",
        );
        return Err(Error::malformed(message));
    }
    let location: i128 = found[0] as i128 + pattern_offset as i128 + address_offset as i128;
    if location < 0 || location + 4 > image.mapped().len() as i128 {
        return Err(
            Error::malformed("broadcast-version signature points outside the image".to_owned()),
        );
    }
    let value: i32 = crate::pe::as_signed(get32(image.mapped(), location as usize));
    if value <= 0 {
        let mut message = "broadcast version read as ".to_owned();
        message.append(decimal_text(value as i128).as_str());
        message.append(", which cannot be right");
        return Err(Error::malformed(message));
    }
    Ok(value)
}

/// What the pattern in `lookup.json` gives on a build.
pub open spec fn stored_version(image: ImageView, stored: SigView) -> std::result::Result<
    i32,
    ErrorView,
> {
    match stored.sig {
        None => Err(ErrorView::Malformed("lookup.json has no broadcastVersion signature"@)),
        Some(text) => match pattern_of(text) {
            Err(e) => Err(e),
            Ok(pattern) => broadcast_version(
                image,
                pattern,
                or_zero(stored.pattern_offset),
                or_zero(stored.address_offset),
            ),
        },
    }
}

/// Reads the broadcast version with the pattern in `lookup.json`.
pub fn read_stored_version(image: &Image, stored: &Signature) -> (r: Result<i32>)
    ensures
        agrees(r, stored_version(image@, stored@)),
{
    let text = match &stored.sig {
        Some(text) => text,
        None => {
            return Err(
                Error::malformed("lookup.json has no broadcastVersion signature".to_owned()),
            );
        },
    };
    let pattern: Pattern = Pattern::parse(text.as_str())?;
    let pattern_offset: i64 = match stored.pattern_offset {
        Some(n) => n,
        None => 0,
    };
    let address_offset: i64 = match stored.address_offset {
        Some(n) => n,
        None => 0,
    };
    read_broadcast_version(image, &pattern, pattern_offset, address_offset)
}

/// The broadcast version of a build, and the pattern to put into `lookup.json`
/// where the one that is there does not give it.
#[derive(Debug, Clone)]
pub struct Broadcast {
    pub version: i32,
    pub replacement: Option<Signature>,
}

/// What a [`Broadcast`] says.
pub struct BroadcastView {
    pub version: i32,
    pub replacement: Option<SigView>,
}

impl View for Broadcast {
    type V = BroadcastView;

    open spec fn view(&self) -> BroadcastView {
        BroadcastView {
            version: self.version,
            replacement: match self.replacement {
                Some(signature) => Some(signature@),
                None => None,
            },
        }
    }
}

/// The literal that a signature was generated over.
pub open spec fn literal(signature: SignatureView) -> i32 {
    match signature.resolves_to {
        Resolution::Immediate(value) => value,
        Resolution::Slot(_) => 0,
    }
}

/// A generated signature as it is published.
pub open spec fn as_published(signature: SignatureView) -> SigView {
    SigView {
        sig: Some(pattern_text(signature.pattern)),
        pattern_offset: Some(signature.pattern_offset),
        address_offset: Some(signature.address_offset),
    }
}

/// The broadcast version of a build. Where the dump reports the address of the
/// method that returns it, the version is established from there; the pattern
/// in `lookup.json` is kept if it still gives that value, and is replaced by a
/// generated one only when it does not. Without the method the pattern in
/// `lookup.json` is all there is.
pub open spec fn established(image: ImageView, stored: SigView, method_rva: Option<u64>) -> std::result::Result<
    BroadcastView,
    ErrorView,
> {
    match method_rva {
        None => match stored_version(image, stored) {
            Err(e) => Err(e),
            Ok(version) => Ok(BroadcastView { version, replacement: None }),
        },
        Some(rva) => match literal_signature(image, rva) {
            Err(e) => Err(e),
            Ok(signature) => {
                let version = literal(signature);
                if version <= 0 {
                    Err(
                        ErrorView::Malformed(
                            "broadcast version read as "@ + decimal(version as int)
                                + ", which cannot be right"@,
                        ),
                    )
                } else if stored_version(image, stored) == Ok::<i32, ErrorView>(version) {
                    Ok(BroadcastView { version, replacement: None })
                } else {
                    Ok(BroadcastView { version, replacement: Some(as_published(signature)) })
                }
            },
        },
    }
}

/// The pattern that `lookup.json` has afterwards gives the version that was
/// established.
pub open spec fn consistent(image: ImageView, stored: SigView, broadcast: BroadcastView) -> bool {
    let kept = match broadcast.replacement {
        Some(signature) => signature,
        None => stored,
    };
    stored_version(image, kept) == Ok::<i32, ErrorView>(broadcast.version)
}

proof fn lemma_generated_reads_back(image: ImageView, signature: SignatureView, version: i32)
    requires
        trustworthy(image, signature, Expectation::Immediate(version)),
        version > 0,
    ensures
        stored_version(image, as_published(signature)) == Ok::<i32, ErrorView>(version),
{
    text_round_trips(signature.pattern);
}

/// Establishes the broadcast version of a build and settles which pattern
/// `lookup.json` should carry for it.
pub fn establish_broadcast(image: &Image, stored: &Signature, method_rva: Option<u64>) -> (r: Result<
    Broadcast,
>)
    ensures
        agrees_in_view(r, established(image@, stored@, method_rva)),
        r is Ok ==> consistent(image@, stored@, r->Ok_0@),
{
    let rva: u64 = match method_rva {
        Some(rva) => rva,
        None => {
            let version: i32 = read_stored_version(image, stored)?;
            return Ok(Broadcast { version, replacement: None });
        },
    };
    let signature: GeneratedSignature = SignatureGenerator::new(image).generate_immediate(rva)?;
    let version: i32 = match signature.resolves_to {
        Resolution::Immediate(value) => value,
        Resolution::Slot(_) => 0,
    };
    if version <= 0 {
        let mut message = "broadcast version read as ".to_owned();
        message.append(decimal_text(version as i128).as_str());
        message.append(", which cannot be right");
        return Err(Error::malformed(message));
    }
    let still_good = match read_stored_version(image, stored) {
        Ok(read) => read == version,
        Err(_) => false,
    };
    if still_good {
        return Ok(Broadcast { version, replacement: None });
    }
    proof {
        lemma_generated_reads_back(image@, signature@, version);
    }
    Ok(
        Broadcast {
            version,
            replacement: Some(
                Signature {
                    sig: Some(signature.pattern.to_string()),
                    pattern_offset: Some(signature.pattern_offset),
                    address_offset: Some(signature.address_offset),
                },
            ),
        },
    )
}

proof fn lemma_joined_first(parts: Seq<Seq<char>>, between: Seq<char>)
    requires
        parts.len() > 1,
    ensures
        joined(parts, between) == parts[0] + between + joined(parts.skip(1), between),
    decreases parts.len(),
{
    let rest = parts.skip(1);
    if parts.len() == 2 {
        assert(parts.drop_last().len() == 1);
        assert(parts.drop_last()[0] == parts[0]);
        assert(joined(parts.drop_last(), between) == parts[0]);
        assert(rest.len() == 1);
        assert(joined(rest, between) == parts[1]);
    } else {
        let front = parts.drop_last();
        lemma_joined_first(front, between);
        assert(front.skip(1) =~= rest.drop_last());
        assert(joined(rest, between) == joined(rest.drop_last(), between) + between + rest.last());
        assert(joined(parts, between) =~= parts[0] + between + joined(rest, between));
    }
}

/// Parts without a dot, put together with dots, come apart again.
proof fn lemma_split_joined(parts: Seq<Seq<char>>)
    requires
        parts.len() > 0,
        forall|i: int, j: int|
            0 <= i < parts.len() && 0 <= j < parts[i].len() ==> #[trigger] parts[i][j] != '.',
    ensures
        split(joined(parts, "."@), '.') == parts,
    decreases parts.len(),
{
    reveal_strlit(".");
    let text = joined(parts, "."@);
    lemma_index_of(text, '.');
    if parts.len() == 1 {
        assert(text == parts[0]);
        if let Some(i) = index_of(text, '.') {
            assert(parts[0][i] != '.');
        }
        assert(split(text, '.') =~= parts);
    } else {
        let rest = parts.skip(1);
        lemma_joined_first(parts, "."@);
        assert forall|i: int, j: int| 0 <= i < rest.len() && 0 <= j < rest[i].len() implies (
        #[trigger] rest[i][j]) != '.' by {
            assert(parts[i + 1][j] != '.');
        }
        lemma_split_joined(rest);
        let n = parts[0].len() as int;
        assert(text[n] == '.');
        assert forall|j: int| 0 <= j < n implies text[j] != '.' by {
            assert(text[j] == parts[0][j]);
        }
        lemma_index_of_is(text, '.', n);
        assert(text.take(n) =~= parts[0]);
        assert(text.skip(n + 1) =~= joined(rest, "."@));
        assert(split(text, '.') =~= parts);
    }
}

/// Decimal digits, at least one.
pub open spec fn is_numeral(part: Seq<char>) -> bool {
    part.len() > 0 && forall|i: int|
        0 <= i < part.len() ==> '0' <= #[trigger] part[i] && part[i] <= '9'
}

/// A digit, then digits and letters.
pub open spec fn is_numbered_word(part: Seq<char>) -> bool {
    &&& part.len() > 0
    &&& '0' <= part[0] && part[0] <= '9'
    &&& forall|i: int|
        0 <= i < part.len() ==> ('0' <= #[trigger] part[i] && part[i] <= '9') || ('a' <= part[i]
            && part[i] <= 'z') || ('A' <= part[i] && part[i] <= 'Z')
}

/// A version is three or four parts with dots between them: numerals, of which
/// the last may go on with letters. It is a version of Unity if and only if one
/// of the letters that Unity tags releases with is in the last part.
pub proof fn a_version_is_numerals_with_dots(parts: Seq<Seq<char>>)
    requires
        parts.len() > 0,
        forall|i: int, j: int|
            0 <= i < parts.len() && 0 <= j < parts[i].len() ==> #[trigger] parts[i][j] != '.',
    ensures
        version_shaped(joined(parts, "."@)) <==> (parts.len() == 3 || parts.len() == 4) && (forall|
            i: int,
        |
            0 <= i < parts.len() - 1 ==> is_numeral(#[trigger] parts[i])) && is_numbered_word(
            parts.last(),
        ),
        unity_shaped(joined(parts, "."@)) <==> exists|i: int|
            0 <= i < parts.last().len() && ((#[trigger] parts.last()[i]) == 'f' || parts.last()[i]
                == 'b' || parts.last()[i] == 'a' || parts.last()[i] == 'p'),
{
    lemma_split_joined(parts);
    let n = parts.len() - 1;
    assert forall|i: int| 0 <= i < n implies version_part(#[trigger] parts[i], false) == is_numeral(
        parts[i],
    ) by {
        if is_numeral(parts[i]) {
            assert(is_digit(parts[i][0]));
            assert forall|k: int| 0 <= k < parts[i].len() implies is_digit(#[trigger] parts[i][k]) by {}
        }
        if version_part(parts[i], false) {
            assert forall|k: int| 0 <= k < parts[i].len() implies '0' <= #[trigger] parts[i][k]
                && parts[i][k] <= '9' by {
                assert(is_digit(parts[i][k]));
            }
        }
    }
    let last = parts[n];
    assert(version_part(last, true) == is_numbered_word(last)) by {
        if is_numbered_word(last) {
            assert forall|k: int| 0 <= k < last.len() implies is_alphanumeric(
                #[trigger] last[k],
            ) by {}
        }
        if version_part(last, true) {
            assert forall|k: int| 0 <= k < last.len() implies ('0' <= #[trigger] last[k] && last[k]
                <= '9') || ('a' <= last[k] && last[k] <= 'z') || ('A' <= last[k] && last[k]
                <= 'Z') by {
                assert(is_alphanumeric(last[k]));
            }
        }
    }
    if version_shaped(joined(parts, "."@)) {
        assert forall|i: int| 0 <= i < n implies is_numeral(#[trigger] parts[i]) by {
            assert(version_part(parts[i], i == n));
        }
        assert(version_part(parts[n], true));
    }
    if (parts.len() == 3 || parts.len() == 4) && (forall|i: int|
        0 <= i < n ==> is_numeral(#[trigger] parts[i])) && is_numbered_word(last) {
        assert forall|i: int| 0 <= i < parts.len() implies version_part(
            #[trigger] parts[i],
            i == parts.len() - 1,
        ) by {
            if i < n {
                assert(is_numeral(parts[i]));
            }
        }
    }
    if unity_shaped(joined(parts, "."@)) {
        let i = choose|i: int| 0 <= i < last.len() && release_letter(#[trigger] last[i]);
        assert(parts.last()[i] == last[i]);
    }
    if exists|i: int|
        0 <= i < parts.last().len() && ((#[trigger] parts.last()[i]) == 'f' || parts.last()[i]
            == 'b' || parts.last()[i] == 'a' || parts.last()[i] == 'p') {
        let i = choose|i: int|
            0 <= i < parts.last().len() && ((#[trigger] parts.last()[i]) == 'f' || parts.last()[i]
                == 'b' || parts.last()[i] == 'a' || parts.last()[i] == 'p');
        assert(release_letter(last[i]));
    }
}

/// A version stands in a file as its length in four bytes, lowest first, and
/// that many visible ASCII characters; it has three to twenty-four of them.
pub proof fn a_version_stands_behind_its_length(file: Seq<u8>, at: int, text: Seq<char>)
    requires
        0 <= at,
        at + 4 <= file.len(),
    ensures
        version_at(file, at) == Some(text) <==> {
            &&& file[at] == text.len() && file[at + 1] == 0 && file[at + 2] == 0 && file[at + 3]
                == 0
            &&& 3 <= text.len() <= 24
            &&& at + 4 + text.len() <= file.len()
            &&& forall|i: int|
                0 <= i < text.len() ==> #[trigger] text[i] == file[at + 4 + i] as char && 0x21
                    <= file[at + 4 + i] <= 0x7e
            &&& version_shaped(text)
        },
{
    let length = le32(file, at);
    let raw = file.subrange(at + 4, at + 4 + length);
    if version_at(file, at) == Some(text) {
        assert forall|i: int| 0 <= i < text.len() implies #[trigger] text[i] == file[at + 4
            + i] as char && 0x21 <= file[at + 4 + i] <= 0x7e by {
            assert(raw[i] == file[at + 4 + i]);
        }
    }
    if file[at] == text.len() && file[at + 1] == 0 && file[at + 2] == 0 && file[at + 3] == 0 && 3
        <= text.len() <= 24 && at + 4 + text.len() <= file.len() && (forall|i: int|
        0 <= i < text.len() ==> #[trigger] text[i] == file[at + 4 + i] as char && 0x21 <= file[at
            + 4 + i] <= 0x7e) {
        assert(length == text.len());
        assert forall|i: int| 0 <= i < raw.len() implies 0x21 <= #[trigger] raw[i] <= 0x7e by {
            assert(text[i] == file[at + 4 + i] as char);
        }
        assert(as_chars(raw) =~= text) by {
            assert forall|i: int| 0 <= i < text.len() implies as_chars(raw)[i] == text[i] by {
                assert(raw[i] == file[at + 4 + i]);
            }
        }
    }
}

proof fn lemma_first_of_kind(file: Seq<u8>, unity: bool, from: int, at: int)
    requires
        0 <= from <= at,
        at + 4 < file.len(),
        version_at(file, at) matches Some(text) && unity_shaped(text) == unity,
        forall|i: int|
            from <= i < at ==> (#[trigger] version_at(file, i) matches Some(text) ==> unity_shaped(
                text,
            ) != unity),
    ensures
        first_version(file, unity, from) == version_at(file, at),
    decreases at - from,
{
    if from < at {
        assert(version_at(file, from) matches Some(text) ==> unity_shaped(text) != unity);
        lemma_first_of_kind(file, unity, from + 1, at);
    }
}

proof fn lemma_none_of_kind(file: Seq<u8>, unity: bool, from: int)
    requires
        0 <= from,
    ensures
        first_version(file, unity, from) is None <==> forall|at: int|
            from <= at && at + 4 < file.len() ==> (#[trigger] version_at(file, at) matches Some(
                text,
            ) ==> unity_shaped(text) != unity),
    decreases file.len() - from,
{
    if from + 4 < file.len() {
        lemma_none_of_kind(file, unity, from + 1);
        if first_version(file, unity, from) is None {
            assert forall|at: int| from <= at && at + 4 < file.len() implies (
            #[trigger] version_at(file, at) matches Some(text) ==> unity_shaped(text) != unity) by {
                if at > from {
                }
            }
        } else {
            if version_at(file, from) matches Some(text) && unity_shaped(text) == unity {
                assert(version_at(file, from) is Some);
            } else {
                assert(first_version(file, unity, from + 1) is Some);
                let at = choose|at: int|
                    from + 1 <= at && at + 4 < file.len() && !(#[trigger] version_at(
                        file,
                        at,
                    ) matches Some(text) ==> unity_shaped(text) != unity);
                assert(version_at(file, at) is Some);
            }
        }
    }
}

/// The Unity version that is given is the first in the file; a file without a
/// version of the game is refused, and no other is.
pub proof fn the_unity_version_is_the_first(file: Seq<u8>, at: int)
    ensures
        game_version(file) is Err <==> forall|i: int|
            0 <= i && i + 4 < file.len() ==> (#[trigger] version_at(file, i) matches Some(text)
                ==> unity_shaped(text)),
        game_version(file) is Ok && 0 <= at && at + 4 < file.len() && (version_at(
            file,
            at,
        ) matches Some(text) && unity_shaped(text)) && (forall|i: int|
            0 <= i < at ==> (#[trigger] version_at(file, i) matches Some(text) ==> !unity_shaped(
                text,
            ))) ==> game_version(file)->Ok_0.unity == version_at(file, at),
{
    lemma_none_of_kind(file, false, 0);
    if 0 <= at && at + 4 < file.len() && (version_at(file, at) matches Some(text) && unity_shaped(
        text,
    )) && (forall|i: int|
        0 <= i < at ==> (#[trigger] version_at(file, i) matches Some(text) ==> !unity_shaped(text))) {
        lemma_first_of_kind(file, true, 0, at);
    }
}

} // verus!
