//! Decisions of the sound-playback gatekeeper: where theme sounds are
//! looked up, which paths may be played, and how many sounds may play at
//! once. Probing the file system and playing happen around these.
use vstd::prelude::*;
use vstd::string::StringExecFns;
use crate::entities::has_at;
use crate::sanitizer::names_view;
use crate::text::{chars_of, string_of};

verus! {

/// The most sounds that may play at once; requests beyond it are dropped.
pub const MAX_CONCURRENT_SOUNDS: u32 = 4;

/// Audio playback errors.
#[derive(Debug, Clone)]
pub enum AudioError {
    /// No audio output device available
    NoAudioDevice,
    /// Sound file not found
    FileNotFound(String),
    /// Sound theme entry not found
    SoundNotFound(String),
    /// The path lies outside every allowed sound directory
    PathNotAllowed(String),
    /// IO error reading file
    IoError(String),
    /// Error decoding audio file
    DecodeError(String),
    /// Error during playback
    PlaybackError(String),
}

/// The message describing `e`.
pub open spec fn error_message(e: AudioError) -> Seq<char> {
    match e {
        AudioError::NoAudioDevice => "No audio output device available"@,
        AudioError::FileNotFound(p) => "Sound file not found: "@ + p@,
        AudioError::SoundNotFound(n) => "Sound '"@ + n@ + "' not found in theme"@,
        AudioError::PathNotAllowed(p) => "Sound path not allowed: "@ + p@,
        AudioError::IoError(d) => "IO error: "@ + d@,
        AudioError::DecodeError(d) => "Audio decode error: "@ + d@,
        AudioError::PlaybackError(d) => "Playback error: "@ + d@,
    }
}

impl AudioError {
    /// The message describing this error.
    pub fn to_string(&self) -> (r: String)
        ensures
            r@ == error_message(*self),
    {
        match self {
            AudioError::NoAudioDevice => String::from_str("No audio output device available"),
            AudioError::FileNotFound(p) => {
                let mut r = String::from_str("Sound file not found: ");
                r.append(p.as_str());
                r
            },
            AudioError::SoundNotFound(n) => {
                let mut r = String::from_str("Sound '");
                r.append(n.as_str());
                r.append("' not found in theme");
                r
            },
            AudioError::PathNotAllowed(p) => {
                let mut r = String::from_str("Sound path not allowed: ");
                r.append(p.as_str());
                r
            },
            AudioError::IoError(d) => {
                let mut r = String::from_str("IO error: ");
                r.append(d.as_str());
                r
            },
            AudioError::DecodeError(d) => {
                let mut r = String::from_str("Audio decode error: ");
                r.append(d.as_str());
                r
            },
            AudioError::PlaybackError(d) => {
                let mut r = String::from_str("Playback error: ");
                r.append(d.as_str());
                r
            },
        }
    }
}

/// `rel` appended to `base` as a path: with one `/` between them, unless
/// `base` is empty or already ends with `/`.
pub open spec fn join(base: Seq<char>, rel: Seq<char>) -> Seq<char> {
    if base.len() == 0 {
        rel
    } else if base.last() == '/' {
        base + rel
    } else {
        base + seq!['/'] + rel
    }
}

pub fn join_path(base: &str, rel: &str) -> (r: String)
    ensures
        r@ == join(base@, rel@),
{
    let b = chars_of(base);
    let mut r = String::from_str(base);
    if b.len() > 0 && b[b.len() - 1] != '/' {
        r.append("/");
        proof {
            reveal_strlit("/");
        }
        assert("/"@ =~= seq!['/']);
    }
    r.append(rel);
    if b.len() == 0 {
        assert(r@ =~= rel@);
    }
    r
}

/// The optional text as plain values.
pub open spec fn opt_view(o: Option<&str>) -> Option<Seq<char>> {
    match o {
        Some(s) => Some(s@),
        None => None,
    }
}

/// The user's data directory for sounds: `$XDG_DATA_HOME/sounds` where
/// that is set, else `$HOME/.local/share/sounds` where that is set.
pub open spec fn user_sound_dir(data_home: Option<Seq<char>>, home: Option<Seq<char>>) -> Option<Seq<char>> {
    match data_home {
        Some(d) => Some(join(d, "sounds"@)),
        None => match home {
            Some(h) => Some(join(h, ".local/share/sounds"@)),
            None => None,
        },
    }
}

/// The system sound directories searched for themes, in order.
pub open spec fn system_theme_dirs() -> Seq<Seq<char>> {
    seq![
        "/usr/share/sounds/freedesktop/stereo"@,
        "/usr/share/sounds/freedesktop"@,
        "/usr/share/sounds"@,
        "/usr/local/share/sounds/freedesktop/stereo"@,
        "/usr/local/share/sounds/freedesktop"@,
        "/usr/local/share/sounds"@,
    ]
}

/// The sound theme directories, in search order: the user's freedesktop
/// theme and sound directory, then the system ones.
pub open spec fn theme_dirs(data_home: Option<Seq<char>>, home: Option<Seq<char>>) -> Seq<Seq<char>> {
    match user_sound_dir(data_home, home) {
        Some(u) => seq![join(u, "freedesktop/stereo"@), u] + system_theme_dirs(),
        None => system_theme_dirs(),
    }
}

/// The directories under which sounds may be played: the user's sound
/// directories (`$XDG_DATA_HOME/sounds` and `$HOME/.local/share/sounds`,
/// where set), then `/usr/share/sounds` and `/usr/local/share/sounds`.
pub open spec fn allowed_roots(data_home: Option<Seq<char>>, home: Option<Seq<char>>) -> Seq<Seq<char>> {
    (match data_home {
        Some(d) => seq![join(d, "sounds"@)],
        None => Seq::empty(),
    }) + (match home {
        Some(h) => seq![join(h, ".local/share/sounds"@)],
        None => Seq::empty(),
    }) + seq!["/usr/share/sounds"@, "/usr/local/share/sounds"@]
}

fn push_str_vec(v: &mut Vec<String>, s: &str)
    ensures
        names_view(final(v)@) == names_view(old(v)@).push(s@),
{
    let ghost before = v@;
    v.push(String::from_str(s));
    assert(names_view(v@) =~= names_view(before).push(s@));
}

fn push_system_theme_dirs(dirs: &mut Vec<String>)
    ensures
        names_view(final(dirs)@) == names_view(old(dirs)@) + system_theme_dirs(),
{
    let ghost before = names_view(dirs@);
    push_str_vec(dirs, "/usr/share/sounds/freedesktop/stereo");
    push_str_vec(dirs, "/usr/share/sounds/freedesktop");
    push_str_vec(dirs, "/usr/share/sounds");
    push_str_vec(dirs, "/usr/local/share/sounds/freedesktop/stereo");
    push_str_vec(dirs, "/usr/local/share/sounds/freedesktop");
    push_str_vec(dirs, "/usr/local/share/sounds");
    assert(names_view(dirs@) =~= before + system_theme_dirs());
}

fn user_sound_dir_of(data_home: Option<&str>, home: Option<&str>) -> (r: Option<String>)
    ensures
        match r {
            Some(s) => user_sound_dir(opt_view(data_home), opt_view(home)) == Some(s@),
            None => user_sound_dir(opt_view(data_home), opt_view(home)) is None,
        },
{
    match data_home {
        Some(d) => Some(join_path(d, "sounds")),
        None => match home {
            Some(h) => Some(join_path(h, ".local/share/sounds")),
            None => None,
        },
    }
}

/// The sound theme directories for the given `$XDG_DATA_HOME` and `$HOME`,
/// in search order.
pub fn get_sound_theme_dirs(data_home: Option<&str>, home: Option<&str>) -> (r: Vec<String>)
    ensures
        names_view(r@) == theme_dirs(opt_view(data_home), opt_view(home)),
{
    let mut dirs: Vec<String> = Vec::new();
    match user_sound_dir_of(data_home, home) {
        Some(u) => {
            let stereo = join_path(u.as_str(), "freedesktop/stereo");
            dirs.push(stereo);
            dirs.push(u);
        },
        None => {},
    }
    let ghost start = names_view(dirs@);
    push_system_theme_dirs(&mut dirs);
    assert(names_view(dirs@) =~= theme_dirs(opt_view(data_home), opt_view(home))) by {
        assert(start =~= match user_sound_dir(opt_view(data_home), opt_view(home)) {
            Some(u) => seq![join(u, "freedesktop/stereo"@), u],
            None => Seq::empty(),
        });
    }
    dirs
}

/// The directories under which sounds may be played, for the given
/// `$XDG_DATA_HOME` and `$HOME`.
pub fn sound_roots(data_home: Option<&str>, home: Option<&str>) -> (r: Vec<String>)
    ensures
        names_view(r@) == allowed_roots(opt_view(data_home), opt_view(home)),
{
    let mut roots: Vec<String> = Vec::new();
    if let Some(d) = data_home {
        roots.push(join_path(d, "sounds"));
    }
    if let Some(h) = home {
        roots.push(join_path(h, ".local/share/sounds"));
    }
    let ghost user = names_view(roots@);
    push_str_vec(&mut roots, "/usr/share/sounds");
    push_str_vec(&mut roots, "/usr/local/share/sounds");
    assert(names_view(roots@) =~= allowed_roots(opt_view(data_home), opt_view(home)));
    roots
}

/// The file extensions probed for a theme sound, in order.
pub open spec fn sound_extensions() -> Seq<Seq<char>> {
    seq!["oga"@, "ogg"@, "wav"@, "mp3"@]
}

/// `name.ext`.
pub open spec fn file_name(name: Seq<char>, ext: Seq<char>) -> Seq<char> {
    name + seq!['.'] + ext
}

/// The paths probed in `dir` for `name`: for each extension in order, the
/// file in `dir` and then the file in its `stereo` subdirectory.
pub open spec fn dir_candidates(dir: Seq<char>, name: Seq<char>) -> Seq<Seq<char>> {
    Seq::new(
        8,
        |k: int|
            if k % 2 == 0 {
                join(dir, file_name(name, sound_extensions()[k / 2]))
            } else {
                join(join(dir, "stereo"@), file_name(name, sound_extensions()[k / 2]))
            },
    )
}

/// The paths probed for `name`, directory by directory, in order.
pub open spec fn theme_candidates(name: Seq<char>, dirs: Seq<Seq<char>>) -> Seq<Seq<char>>
    decreases dirs.len(),
{
    if dirs.len() == 0 {
        Seq::empty()
    } else {
        theme_candidates(name, dirs.drop_last()) + dir_candidates(dirs.last(), name)
    }
}

fn file_name_of(name: &str, ext: &str) -> (r: String)
    ensures
        r@ == file_name(name@, ext@),
{
    let mut r = String::from_str(name);
    r.append(".");
    proof {
        reveal_strlit(".");
    }
    assert("."@ =~= seq!['.']);
    r.append(ext);
    r
}

/// The paths to probe for the theme sound `name` in `dirs`, in order.
pub fn sound_theme_candidates(name: &str, dirs: &Vec<String>) -> (r: Vec<String>)
    ensures
        names_view(r@) == theme_candidates(name@, names_view(dirs@)),
{
    let exts = vec![String::from_str("oga"), String::from_str("ogg"), String::from_str("wav"), String::from_str("mp3")];
    assert(names_view(exts@) =~= sound_extensions());
    let mut out: Vec<String> = Vec::new();
    let mut d: usize = 0;
    while d < dirs.len()
        invariant
            d <= dirs@.len(),
            exts@.len() == 4,
            names_view(exts@) == sound_extensions(),
            names_view(out@) == theme_candidates(name@, names_view(dirs@.take(d as int))),
        decreases dirs@.len() - d,
    {
        let dir = dirs[d].as_str();
        let stereo = join_path(dir, "stereo");
        let ghost start = names_view(out@);
        let mut e: usize = 0;
        while e < 4
            invariant
                e <= 4,
                exts@.len() == 4,
                names_view(exts@) == sound_extensions(),
                stereo@ == join(dir@, "stereo"@),
                names_view(out@) == start + dir_candidates(dir@, name@).take(2 * e),
            decreases 4 - e,
        {
            let file = file_name_of(name, exts[e].as_str());
            assert(exts@[e as int]@ == sound_extensions()[e as int]);
            let ghost mid = names_view(out@);
            out.push(join_path(dir, file.as_str()));
            out.push(join_path(stereo.as_str(), file.as_str()));
            assert(names_view(out@) =~= start + dir_candidates(dir@, name@).take(2 * e + 2)) by {
                assert(names_view(out@) =~= mid.push(join(dir@, file@)).push(join(stereo@, file@)));
                assert(dir_candidates(dir@, name@).take(2 * e + 2) =~= dir_candidates(dir@, name@).take(2 * e).push(
                    dir_candidates(dir@, name@)[2 * e],
                ).push(dir_candidates(dir@, name@)[2 * e + 1]));
            }
            e = e + 1;
        }
        assert(dir_candidates(dir@, name@).take(8) =~= dir_candidates(dir@, name@));
        assert(names_view(dirs@.take(d + 1)).drop_last() =~= names_view(dirs@.take(d as int)));
        assert(names_view(dirs@.take(d + 1)).last() == dir@);
        d = d + 1;
    }
    assert(dirs@.take(dirs@.len() as int) =~= dirs@);
    out
}

/// The theme sound `name` resolved from the candidates probed in order:
/// the first candidate whose flag in `present` is set. Flags past the end
/// of `candidates`, and candidates past the end of `present`, count as
/// absent.
pub fn find_sound_theme_file(name: &str, candidates: &Vec<String>, present: &Vec<bool>) -> (r: Result<String, AudioError>)
    ensures
        match r {
            Ok(p) => exists|k: int|
                0 <= k < candidates@.len() && k < present@.len() && present@[k] && p@ == candidates@[k]@
                    && forall|m: int| 0 <= m < k ==> !present@[m],
            Err(e) => (e matches AudioError::SoundNotFound(n) && n@ == name@) && forall|k: int|
                0 <= k < candidates@.len() && k < present@.len() ==> !present@[k],
        },
{
    let mut k: usize = 0;
    while k < candidates.len() && k < present.len()
        invariant
            k <= candidates@.len(),
            forall|m: int| 0 <= m < k && m < present@.len() ==> !present@[m],
        decreases candidates@.len() - k,
    {
        if present[k] {
            return Ok(candidates[k].clone());
        }
        k = k + 1;
    }
    Err(AudioError::SoundNotFound(String::from_str(name)))
}

/// `p` has a `..` component.
pub open spec fn has_parent_ref(p: Seq<char>) -> bool {
    exists|i: int|
        0 <= i && i + 3 <= p.len() && #[trigger] p[i] == '/' && p[i + 1] == '.' && p[i + 2] == '.' && (i
            + 3 == p.len() || p[i + 3] == '/')
}

/// `p` is `root` or lies in the tree under it.
pub open spec fn under_root(p: Seq<char>, root: Seq<char>) -> bool {
    root.len() > 0 && has_at(p, 0, root) && (p.len() == root.len() || root.last() == '/' || p[root.len() as int]
        == '/')
}

/// `p` is absolute, has no `..` component, and lies under one of `roots`.
pub open spec fn path_allowed(p: Seq<char>, roots: Seq<Seq<char>>) -> bool {
    p.len() > 0 && p[0] == '/' && !has_parent_ref(p) && exists|k: int|
        0 <= k < roots.len() && under_root(p, #[trigger] roots[k])
}

fn has_parent_ref_vec(v: &Vec<char>) -> (r: bool)
    ensures
        r == has_parent_ref(v@),
{
    let n = v.len();
    let mut i: usize = 0;
    while i < n
        invariant
            n == v@.len(),
            i <= n,
            forall|k: int|
                0 <= k < i && k + 3 <= v@.len() ==> !(#[trigger] v@[k] == '/' && v@[k + 1] == '.' && v@[k + 2]
                    == '.' && (k + 3 == v@.len() || v@[k + 3] == '/')),
        decreases n - i,
    {
        if n - i >= 3 && v[i] == '/' && v[i + 1] == '.' && v[i + 2] == '.' && (n - i == 3 || v[i + 3] == '/') {
            return true;
        }
        i = i + 1;
    }
    false
}

fn under_root_vec(p: &Vec<char>, root: &Vec<char>) -> (r: bool)
    ensures
        r == under_root(p@, root@),
{
    let rl = root.len();
    if rl == 0 || rl > p.len() {
        return false;
    }
    if !crate::entities::matches_at(p, 0, root) {
        return false;
    }
    p.len() == rl || root[rl - 1] == '/' || p[rl] == '/'
}

/// Whether `path` may be played: it is absolute, has no `..` component,
/// and lies under one of `roots`.
pub fn is_path_allowed(path: &str, roots: &Vec<String>) -> (r: bool)
    ensures
        r == path_allowed(path@, names_view(roots@)),
{
    let p = chars_of(path);
    if p.len() == 0 || p[0] != '/' || has_parent_ref_vec(&p) {
        return false;
    }
    let mut k: usize = 0;
    while k < roots.len()
        invariant
            k <= roots@.len(),
            p@ == path@,
            path@.len() > 0 && path@[0] == '/' && !has_parent_ref(path@),
            forall|m: int| 0 <= m < k ==> !under_root(p@, #[trigger] names_view(roots@)[m]),
        decreases roots@.len() - k,
    {
        let root = chars_of(roots[k].as_str());
        if under_root_vec(&p, &root) {
            assert(names_view(roots@)[k as int] == root@);
            assert(under_root(path@, names_view(roots@)[k as int]));
            assert(names_view(roots@).len() == roots@.len());
            assert(path@.len() > 0 && path@[0] == '/' && !has_parent_ref(path@));
            return true;
        }
        k = k + 1;
    }
    false
}

/// Confines playback to the allowed roots: a path outside every root, or
/// one that is relative or climbs with `..`, is refused with
/// `PathNotAllowed` before anything touches the file system.
pub fn check_sound_path(path: &str, roots: &Vec<String>) -> (r: Result<(), AudioError>)
    ensures
        r is Ok <==> path_allowed(path@, names_view(roots@)),
        r matches Err(e) ==> (e matches AudioError::PathNotAllowed(p) && p@ == path@),
{
    if is_path_allowed(path, roots) {
        Ok(())
    } else {
        Err(AudioError::PathNotAllowed(String::from_str(path)))
    }
}

/// The count of playing sounds after admitting one more, if the ceiling
/// allows it.
pub open spec fn acquired(active: u32) -> Option<u32> {
    if active < MAX_CONCURRENT_SOUNDS {
        Some((active + 1) as u32)
    } else {
        None
    }
}

/// The count of playing sounds after one finishes.
pub open spec fn released(active: u32) -> u32 {
    if active > 0 {
        (active - 1) as u32
    } else {
        0
    }
}

/// Takes a playback slot: the new count where one is free, `None` where
/// `MAX_CONCURRENT_SOUNDS` already play (the request is then dropped).
pub fn try_acquire_slot(active: u32) -> (r: Option<u32>)
    ensures
        r == acquired(active),
{
    if active < MAX_CONCURRENT_SOUNDS {
        Some(active + 1)
    } else {
        None
    }
}

/// Gives a playback slot back when a sound has finished, whether or not
/// it played successfully.
pub fn release_slot(active: u32) -> (r: u32)
    ensures
        r == released(active),
{
    if active > 0 {
        active - 1
    } else {
        0
    }
}

/// What happens to the gatekeeper's counter.
pub enum GateEvent {
    /// A valid playback request arrives.
    Request,
    /// An admitted sound finishes.
    Finish,
}

/// The count of playing sounds after `events`, from none.
pub open spec fn playing_after(events: Seq<GateEvent>) -> u32
    decreases events.len(),
{
    if events.len() == 0 {
        0
    } else {
        let c = playing_after(events.drop_last());
        match events.last() {
            GateEvent::Request => match acquired(c) {
                Some(n) => n,
                None => c,
            },
            GateEvent::Finish => released(c),
        }
    }
}

/// However requests and completions interleave, starting with no sound
/// playing, at no point do more than `MAX_CONCURRENT_SOUNDS` play.
pub proof fn lemma_concurrency_cap(events: Seq<GateEvent>)
    ensures
        playing_after(events) <= MAX_CONCURRENT_SOUNDS,
        forall|k: int| 0 <= k <= events.len() ==> #[trigger] playing_after(events.take(k)) <= MAX_CONCURRENT_SOUNDS,
    decreases events.len(),
{
    if events.len() > 0 {
        lemma_concurrency_cap(events.drop_last());
        assert forall|k: int| 0 <= k <= events.len() implies #[trigger] playing_after(events.take(k))
            <= MAX_CONCURRENT_SOUNDS by {
            if k < events.len() {
                assert(events.take(k) =~= events.drop_last().take(k));
            } else {
                assert(events.take(k) =~= events);
            }
        }
    } else {
        assert forall|k: int| 0 <= k <= events.len() implies #[trigger] playing_after(events.take(k))
            <= MAX_CONCURRENT_SOUNDS by {
            assert(events.take(k).len() == 0);
        }
    }
}

/// A burst of `n` simultaneous requests, with none finishing, admits
/// exactly the smaller of `n` and `MAX_CONCURRENT_SOUNDS`; the rest are
/// dropped.
pub proof fn lemma_burst(n: nat)
    ensures
        playing_after(Seq::new(n, |i: int| GateEvent::Request)) == if n < MAX_CONCURRENT_SOUNDS {
            n
        } else {
            MAX_CONCURRENT_SOUNDS as nat
        },
    decreases n,
{
    if n > 0 {
        let e = Seq::new(n, |i: int| GateEvent::Request);
        assert(e.drop_last() =~= Seq::new((n - 1) as nat, |i: int| GateEvent::Request));
        lemma_burst((n - 1) as nat);
    }
}

/// What the gatekeeper does next with a playback request.
pub enum PlaybackStep {
    /// Answer the caller with this error; nothing more is done.
    Refuse(AudioError),
    /// Find out whether the file exists.
    ProbeFile,
    /// Try to take a playback slot, as `try_acquire_slot` does.
    TakeSlot,
    /// Play on a worker, which gives the slot back when done, and answer
    /// the caller with success.
    Play,
    /// Answer the caller with success without playing: every slot is taken.
    Discard,
}

/// The step answers the caller with success.
pub open spec fn answers_success(step: PlaybackStep) -> bool {
    step is Play || step is Discard
}

/// The next step for a request to play `path`, given whether the file was
/// found to exist and whether a slot was taken, where those are known yet.
///
/// A path outside the allowed roots is refused before anything else, so
/// before any file is probed or opened; a missing file is refused next;
/// a request over the concurrency ceiling is discarded, and answered with
/// success all the same.
pub fn playback_step(
    path: &str,
    roots: &Vec<String>,
    exists: Option<bool>,
    slot_taken: Option<bool>,
) -> (r: PlaybackStep)
    ensures
        !path_allowed(path@, names_view(roots@)) ==> (r matches PlaybackStep::Refuse(
            AudioError::PathNotAllowed(p),
        ) && p@ == path@),
        path_allowed(path@, names_view(roots@)) && exists is None ==> r is ProbeFile,
        path_allowed(path@, names_view(roots@)) && exists == Some(false) ==> (r matches PlaybackStep::Refuse(
            AudioError::FileNotFound(p),
        ) && p@ == path@),
        path_allowed(path@, names_view(roots@)) && exists == Some(true) && slot_taken is None
            ==> r is TakeSlot,
        path_allowed(path@, names_view(roots@)) && exists == Some(true) && slot_taken == Some(true)
            ==> r is Play,
        path_allowed(path@, names_view(roots@)) && exists == Some(true) && slot_taken == Some(false)
            ==> r is Discard,
        path_allowed(path@, names_view(roots@)) && exists == Some(true) && slot_taken is Some
            ==> answers_success(r),
{
    if let Err(e) = check_sound_path(path, roots) {
        return PlaybackStep::Refuse(e);
    }
    match exists {
        None => PlaybackStep::ProbeFile,
        Some(false) => PlaybackStep::Refuse(AudioError::FileNotFound(String::from_str(path))),
        Some(true) => match slot_taken {
            None => PlaybackStep::TakeSlot,
            Some(true) => PlaybackStep::Play,
            Some(false) => PlaybackStep::Discard,
        },
    }
}

} // verus!
