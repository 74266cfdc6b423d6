//! Companion character: taught cues (a recognised gesture or sound triggers a
//! behaviour), behaviour timing, the trigger cooldown and the blink rhythm.

use vstd::prelude::*;

use crate::keyed::SortedMap;
use crate::text::{chars_match_at, to_chars};

verus! {

/// Control loop and telemetry rate.
pub const CONTROL_HZ: u32 = 30;

/// Ticks a cue must wait before it triggers again (two seconds).
pub const TRIGGER_COOLDOWN: u64 = 60;

/// Where a cue comes from.
#[derive(Debug, Clone, Copy, PartialEq, Eq, Structural)]
pub enum CueKind {
    /// A registered gesture (vision model, camera).
    Gesture,
    /// A registered sound (audio model, microphone).
    Sound,
}

#[derive(Debug, Clone, Copy, PartialEq, Eq, Structural)]
pub enum CompanionMode {
    /// The sliders and the API set the pose; nothing is observed.
    Manual,
    /// Watch and listen: attention, mirroring and cues drive the body.
    Interactive,
}

impl Default for CompanionMode {
    fn default() -> (m: Self)
        ensures
            m == CompanionMode::Manual,
    {
        CompanionMode::Manual
    }
}

/// What the companion does when a cue is recognised (the parameters of poses and of
/// the mood light are left out).
#[derive(Debug, Clone, Copy, PartialEq, Eq, Structural)]
pub enum BehaviourKind {
    Pose,
    Nod,
    Shake,
    WaveLeft,
    WaveRight,
    Cheer,
    Dance,
    Startle,
    Sleep,
    Mood,
    Acknowledge,
}

impl BehaviourKind {
    /// Length of the animation in ticks; none for poses and mood, which hold.
    pub open spec fn spec_duration(self) -> Option<u32> {
        match self {
            BehaviourKind::Pose | BehaviourKind::Mood => None,
            BehaviourKind::Nod | BehaviourKind::Shake => Some(45),
            BehaviourKind::WaveLeft | BehaviourKind::WaveRight => Some(60),
            BehaviourKind::Cheer => Some(60),
            BehaviourKind::Dance => Some(120),
            BehaviourKind::Startle => Some(45),
            BehaviourKind::Sleep => Some(180),
            BehaviourKind::Acknowledge => Some(36),
        }
    }

    /// Length of the animation in ticks (`None` for poses and mood, which hold).
    pub fn duration_ticks(self) -> (d: Option<u32>)
        ensures
            d == self.spec_duration(),
    {
        match self {
            BehaviourKind::Pose | BehaviourKind::Mood => None,
            BehaviourKind::Nod | BehaviourKind::Shake => Some(CONTROL_HZ * 3 / 2),
            BehaviourKind::WaveLeft | BehaviourKind::WaveRight => Some(CONTROL_HZ * 2),
            BehaviourKind::Cheer => Some(CONTROL_HZ * 2),
            BehaviourKind::Dance => Some(CONTROL_HZ * 4),
            BehaviourKind::Startle => Some(CONTROL_HZ * 3 / 2),
            BehaviourKind::Sleep => Some(CONTROL_HZ * 6),
            BehaviourKind::Acknowledge => Some(CONTROL_HZ * 6 / 5),
        }
    }

    /// Snake-case name, as serialised and shown.
    pub fn label(self) -> (s: &'static str)
        ensures
            s@ == match self {
                BehaviourKind::Pose => "pose"@,
                BehaviourKind::Nod => "nod"@,
                BehaviourKind::Shake => "shake"@,
                BehaviourKind::WaveLeft => "wave_left"@,
                BehaviourKind::WaveRight => "wave_right"@,
                BehaviourKind::Cheer => "cheer"@,
                BehaviourKind::Dance => "dance"@,
                BehaviourKind::Startle => "startle"@,
                BehaviourKind::Sleep => "sleep"@,
                BehaviourKind::Mood => "mood"@,
                BehaviourKind::Acknowledge => "acknowledge"@,
            },
    {
        match self {
            BehaviourKind::Pose => "pose",
            BehaviourKind::Nod => "nod",
            BehaviourKind::Shake => "shake",
            BehaviourKind::WaveLeft => "wave_left",
            BehaviourKind::WaveRight => "wave_right",
            BehaviourKind::Cheer => "cheer",
            BehaviourKind::Dance => "dance",
            BehaviourKind::Startle => "startle",
            BehaviourKind::Sleep => "sleep",
            BehaviourKind::Mood => "mood",
            BehaviourKind::Acknowledge => "acknowledge",
        }
    }
}

/// The key a cue is stored under: its kind, a colon, its name.
pub open spec fn spec_cue_key(kind: CueKind, name: Seq<char>) -> Seq<char> {
    match kind {
        CueKind::Gesture => "gesture:"@ + name,
        CueKind::Sound => "sound:"@ + name,
    }
}

/// A taught association: when `name` of `kind` is recognised, do `behaviour`.
#[derive(Debug, Clone)]
pub struct Cue<B> {
    pub kind: CueKind,
    pub name: String,
    pub behaviour: B,
}

impl<B> Cue<B> {
    /// The key a cue of `kind` named `name` is stored under.
    pub fn key(kind: CueKind, name: &str) -> (k: String)
        ensures
            k@ == spec_cue_key(kind, name@),
    {
        match kind {
            CueKind::Gesture => String::from_str("gesture:").concat(name),
            CueKind::Sound => String::from_str("sound:").concat(name),
        }
    }
}

/// The taught cues, one per kind and name, listed by key.
pub struct CueBook<B> {
    cues: SortedMap<Cue<B>>,
}

impl<B> CueBook<B> {
    /// The cues by key.
    pub closed spec fn cues(&self) -> SortedMap<Cue<B>> {
        self.cues
    }

    /// The cue of `kind` named `name`.
    pub open spec fn cue(&self, kind: CueKind, name: Seq<char>) -> Option<Cue<B>> {
        self.cues().get_spec(spec_cue_key(kind, name))
    }

    pub open spec fn well_formed(&self) -> bool {
        self.cues().well_formed()
    }

    pub fn new() -> (b: Self)
        ensures
            b.well_formed(),
            forall|kind: CueKind, name: Seq<char>| #[trigger] b.cue(kind, name) is None,
    {
        let b = CueBook { cues: SortedMap::new() };
        proof {
            assert forall|kind: CueKind, name: Seq<char>| #[trigger] b.cue(kind, name) is None by {
                assert(b.cues().entries().len() == 0);
            }
        }
        b
    }

    /// Teach `cue`, replacing the cue of the same kind and name.
    pub fn set_cue(&mut self, cue: Cue<B>)
        requires
            old(self).well_formed(),
        ensures
            final(self).well_formed(),
            forall|q: Seq<char>| #[trigger] final(self).cues().get_spec(q) == if q == spec_cue_key(
                cue.kind,
                cue.name@,
            ) {
                Some(cue)
            } else {
                old(self).cues().get_spec(q)
            },
    {
        let k: String = Cue::<B>::key(cue.kind, cue.name.as_str());
        self.cues.insert(k, cue);
    }

    /// Forget the cue of `kind` named `name`; whether there was one.
    pub fn remove_cue(&mut self, kind: CueKind, name: &str) -> (removed: bool)
        requires
            old(self).well_formed(),
        ensures
            final(self).well_formed(),
            removed == old(self).cue(kind, name@) is Some,
            forall|q: Seq<char>| #[trigger] final(self).cues().get_spec(q) == if q == spec_cue_key(kind, name@) {
                None
            } else {
                old(self).cues().get_spec(q)
            },
    {
        let k: String = Cue::<B>::key(kind, name);
        self.cues.remove(k.as_str()).is_some()
    }

    /// The cue of `kind` named `name`.
    pub fn get(&self, kind: CueKind, name: &str) -> (r: Option<&Cue<B>>)
        requires
            self.well_formed(),
        ensures
            r matches Some(c) ==> self.cue(kind, name@) == Some(*c),
            r is None ==> self.cue(kind, name@) is None,
    {
        let k: String = Cue::<B>::key(kind, name);
        self.cues.get(k.as_str())
    }

    /// Number of cues.
    pub fn len(&self) -> (n: usize)
        ensures
            n == self.cues().entries().len(),
    {
        self.cues.len()
    }

    /// The `i`-th cue in key order.
    pub fn nth(&self, i: usize) -> (r: Option<&Cue<B>>)
        ensures
            r matches Some(c) ==> i < self.cues().entries().len() && self.cues().entries()[i as int].1 == *c,
            r is None <==> i >= self.cues().entries().len(),
    {
        match self.cues.entry(i) {
            Some(e) => Some(e.1),
            None => None,
        }
    }
}

/// A trigger that last fired at `last` (if ever) may fire at `tick`.
pub open spec fn may_fire(last: Option<u64>, tick: u64) -> bool {
    match last {
        Some(l) => !(tick - l < TRIGGER_COOLDOWN),
        None => true,
    }
}

/// A trigger never fires twice within the cooldown: once it fired at `t1`, it may
/// fire again at `t2` only when `t2` is at least [`TRIGGER_COOLDOWN`] ticks later.
pub proof fn lemma_cooldown(t1: u64, t2: u64)
    ensures
        may_fire(Some(t1), t2) <==> t2 >= t1 + TRIGGER_COOLDOWN,
{
}

/// When each trigger last fired, for the cooldown.
pub struct TriggerClock {
    last: SortedMap<u64>,
}

impl TriggerClock {
    /// Tick at which the trigger under `key` last fired.
    pub closed spec fn last_fired(&self, key: Seq<char>) -> Option<u64> {
        self.last.get_spec(key)
    }

    pub closed spec fn well_formed(&self) -> bool {
        self.last.well_formed()
    }

    pub fn new() -> (c: Self)
        ensures
            c.well_formed(),
            forall|k: Seq<char>| #[trigger] c.last_fired(k) is None,
    {
        let c = TriggerClock { last: SortedMap::new() };
        proof {
            assert forall|k: Seq<char>| #[trigger] c.last_fired(k) is None by {
                assert(c.last.entries().len() == 0);
            }
        }
        c
    }

    /// Whether the trigger under `key` may fire at `tick`: it never fired, or at
    /// least [`TRIGGER_COOLDOWN`] ticks ago. When it fires, `tick` is recorded.
    pub fn fire(&mut self, key: &str, tick: u64) -> (fired: bool)
        requires
            old(self).well_formed(),
        ensures
            final(self).well_formed(),
            fired == may_fire(old(self).last_fired(key@), tick),
            forall|k: Seq<char>| #[trigger] final(self).last_fired(k) == if fired && k == key@ {
                Some(tick)
            } else {
                old(self).last_fired(k)
            },
    {
        match self.last.get(key) {
            Some(last) => {
                let elapsed: u64 = if tick >= *last { tick - *last } else { 0 };
                if elapsed < TRIGGER_COOLDOWN {
                    return false;
                }
            },
            None => {},
        }
        self.last.insert(String::from_str(key), tick);
        true
    }
}

/// Eyes are closed for 4 ticks of every 4 seconds, and while sleeping.
pub open spec fn spec_eyes_closed(tick: u64, sleeping: bool) -> bool {
    tick % 120 < 4 || sleeping
}

/// Whether the eyes are closed at `tick`.
pub fn eyes_closed(tick: u64, sleeping: bool) -> (r: bool)
    ensures
        r == spec_eyes_closed(tick, sleeping),
{
    tick % ((CONTROL_HZ as u64) * 4) < 4 || sleeping
}

/// An animation started at `started` and lasting `duration` ticks is over at `tick`.
pub fn animation_over(started: u64, duration: u32, tick: u64) -> (r: bool)
    requires
        started <= tick,
    ensures
        r == (tick - started >= duration),
{
    tick - started >= duration as u64
}

/// A pixel counts as moving when its grey level changes by more than this.
pub const MOTION_THRESHOLD: u8 = 28;

/// Pixel `i` changed between the two thumbnails.
pub open spec fn moved(prev: Seq<u8>, cur: Seq<u8>, i: int) -> bool {
    if prev[i] >= cur[i] {
        prev[i] - cur[i] > MOTION_THRESHOLD
    } else {
        cur[i] - prev[i] > MOTION_THRESHOLD
    }
}

/// Over the first `n` pixels of two `width`-wide thumbnails: how many changed, and
/// the sums of their columns and of their rows.
pub open spec fn motion_counts(prev: Seq<u8>, cur: Seq<u8>, width: int, n: int) -> (int, int, int)
    decreases n,
{
    if n <= 0 {
        (0, 0, 0)
    } else {
        let (c, x, y) = motion_counts(prev, cur, width, n - 1);
        if moved(prev, cur, n - 1) {
            (c + 1, x + (n - 1) % width, y + (n - 1) / width)
        } else {
            (c, x, y)
        }
    }
}

/// The changed pixels between two grey thumbnails: how many, and the sums of their
/// columns and rows (the centroid is the sums over the count).
#[derive(Debug, Clone, Copy, PartialEq, Eq)]
pub struct MotionStats {
    pub changed: u64,
    pub sum_x: u128,
    pub sum_y: u128,
}

/// Motion between two grey thumbnails of `width` x `height` values, or none when
/// the sizes do not agree or the frame is empty.
pub fn motion_stats(prev: &[u8], cur: &[u8], width: usize, height: usize) -> (r: Option<MotionStats>)
    ensures
        r is None <==> (prev@.len() != cur@.len() || prev@.len() != width * height || width == 0 || height == 0),
        r matches Some(m) ==> (m.changed as int, m.sum_x as int, m.sum_y as int) == motion_counts(
            prev@,
            cur@,
            width as int,
            prev@.len() as int,
        ),
{
    if width == 0 || height == 0 || prev.len() != cur.len() {
        return None;
    }
    if prev.len() / width != height || prev.len() % width != 0 {
        proof {
            assert(prev@.len() != width * height) by (nonlinear_arith)
                requires
                    width > 0,
                    (prev@.len() as int) / (width as int) != height || (prev@.len() as int) % (width as int) != 0,
            ;
        }
        return None;
    }
    proof {
        assert(prev@.len() == width * height) by (nonlinear_arith)
            requires
                width > 0,
                (prev@.len() as int) / (width as int) == height,
                (prev@.len() as int) % (width as int) == 0,
        ;
    }
    let n: usize = prev.len();
    let mut changed: u64 = 0;
    let mut sum_x: u128 = 0;
    let mut sum_y: u128 = 0;
    let mut i: usize = 0;
    while i < n
        invariant
            n == prev@.len(),
            n == cur@.len(),
            width > 0,
            i <= n,
            changed <= i,
            sum_x <= i * 0xFFFF_FFFF_FFFF_FFFFu128,
            sum_y <= i * 0xFFFF_FFFF_FFFF_FFFFu128,
            (changed as int, sum_x as int, sum_y as int) == motion_counts(prev@, cur@, width as int, i as int),
        decreases n - i,
    {
        let a: u8 = prev[i];
        let b: u8 = cur[i];
        let d: u8 = if a >= b {
            a - b
        } else {
            b - a
        };
        if d > MOTION_THRESHOLD {
            let x: usize = i % width;
            let y: usize = i / width;
            proof {
                assert(i < 0x1_0000_0000_0000_0000int);
                assert((i as int) * 0xFFFF_FFFF_FFFF_FFFFint + 0xFFFF_FFFF_FFFF_FFFFint <= 0xFFFF_FFFF_FFFF_FFFF_FFFF_FFFF_FFFF_FFFFint) by (nonlinear_arith)
                    requires
                        0 <= i < 0x1_0000_0000_0000_0000int,
                ;
                assert((i + 1) * 0xFFFF_FFFF_FFFF_FFFFint == (i as int) * 0xFFFF_FFFF_FFFF_FFFFint + 0xFFFF_FFFF_FFFF_FFFFint) by (nonlinear_arith);
            }
            changed = changed + 1;
            sum_x = sum_x + x as u128;
            sum_y = sum_y + y as u128;
        } else {
            proof {
                assert((i + 1) * 0xFFFF_FFFF_FFFF_FFFFint >= (i as int) * 0xFFFF_FFFF_FFFF_FFFFint) by (nonlinear_arith);
            }
        }
        i = i + 1;
    }
    Some(MotionStats { changed, sum_x, sum_y })
}

/// Milliseconds between two embeddings of the camera view by the watching companion.
pub const EMBED_INTERVAL_MS: u64 = 300;

/// What the watching companion remembers between two looks at the camera: the
/// sequence number of the thumbnail it kept, and when it last embedded the view.
pub struct EyesCursor {
    pub prev_sequence: Option<u64>,
    pub last_embed_ms: u64,
}

/// What one look at the camera does.
#[derive(Debug, Clone, Copy, PartialEq, Eq, Structural)]
pub struct EyesStep {
    /// Compare the kept thumbnail with the current one (motion).
    pub compare_motion: bool,
    /// Keep the current thumbnail for the next look.
    pub keep_thumbnail: bool,
    /// Embed the view and match it against the taught gestures.
    pub embed: bool,
}

/// One look of the companion's eyes (every 100 ms), at `now_ms`. Only an interactive
/// companion with a running camera watches; otherwise the kept thumbnail is
/// forgotten. Motion is measured only between two different frames; the view is
/// embedded at most every [`EMBED_INTERVAL_MS`], and only when gestures are taught
/// for the active model.
pub fn eyes_tick(c: &mut EyesCursor, watching: bool, thumbnail: Option<u64>, now_ms: u64, has_gestures: bool) -> (s:
    EyesStep)
    ensures
        !watching ==> s == (EyesStep { compare_motion: false, keep_thumbnail: false, embed: false })
            && final(c).prev_sequence is None && final(c).last_embed_ms == old(c).last_embed_ms,
        watching ==> {
            &&& s.compare_motion == (thumbnail matches Some(q) && old(c).prev_sequence matches Some(p) && p != q)
            &&& s.keep_thumbnail == thumbnail is Some
            &&& final(c).prev_sequence == if thumbnail is Some {
                thumbnail
            } else {
                old(c).prev_sequence
            }
            &&& if now_ms - old(c).last_embed_ms < EMBED_INTERVAL_MS {
                !s.embed && final(c).last_embed_ms == old(c).last_embed_ms
            } else {
                s.embed == has_gestures && final(c).last_embed_ms == now_ms
            }
        },
{
    if !watching {
        c.prev_sequence = None;
        return EyesStep { compare_motion: false, keep_thumbnail: false, embed: false };
    }
    let mut compare: bool = false;
    let mut keep: bool = false;
    if let Some(q) = thumbnail {
        if let Some(p) = c.prev_sequence {
            compare = p != q;
        }
        c.prev_sequence = Some(q);
        keep = true;
    }
    if now_ms < c.last_embed_ms || now_ms - c.last_embed_ms < EMBED_INTERVAL_MS {
        return EyesStep { compare_motion: compare, keep_thumbnail: keep, embed: false };
    }
    c.last_embed_ms = now_ms;
    EyesStep { compare_motion: compare, keep_thumbnail: keep, embed: has_gestures }
}

/// What one listen of the companion's ears (every 700 ms) does.
#[derive(Debug, Clone, Copy, PartialEq, Eq, Structural)]
pub enum EarsStep {
    /// Not interactive, or the microphone is off.
    Skip,
    /// No sound is taught for the audio model: only the level counts (startle).
    LevelOnly,
    /// Embed the recent audio and match it against the taught sounds.
    Listen,
}

/// One listen of the companion's ears.
pub fn ears_tick(listening: bool, has_sounds: bool) -> (s: EarsStep)
    ensures
        s == if !listening {
            EarsStep::Skip
        } else if !has_sounds {
            EarsStep::LevelOnly
        } else {
            EarsStep::Listen
        },
{
    if !listening {
        EarsStep::Skip
    } else if !has_sounds {
        EarsStep::LevelOnly
    } else {
        EarsStep::Listen
    }
}

/// The companion's two observers.
#[derive(Debug, Clone, Copy, PartialEq, Eq, Structural)]
pub enum Observer {
    /// The camera observer.
    Eyes,
    /// The microphone observer.
    Ears,
}

/// The word that opens an observer's error reports.
pub open spec fn spec_observer_word(o: Observer) -> Seq<char> {
    match o {
        Observer::Eyes => "Watching"@,
        Observer::Ears => "Listening"@,
    }
}

fn observer_word(o: Observer) -> (w: &'static str)
    ensures
        w@ == spec_observer_word(o),
{
    match o {
        Observer::Eyes => "Watching",
        Observer::Ears => "Listening",
    }
}

/// An observation failed with `msg`: it becomes the companion's last error, under the
/// observer's word.
pub fn observer_failed(last_error: &mut Option<String>, o: Observer, msg: &str)
    ensures
        *final(last_error) matches Some(e) && e@ == spec_observer_word(o) + ": "@ + msg@,
{
    *last_error = Some(String::from_str(observer_word(o)).concat(": ").concat(msg));
}

/// An observation succeeded: an error that this observer reported is cleared; any
/// other error stays.
pub fn observer_succeeded(last_error: &mut Option<String>, o: Observer)
    ensures
        (*old(last_error) matches Some(e) && e@.len() >= spec_observer_word(o).len() && e@.take(
            spec_observer_word(o).len() as int,
        ) == spec_observer_word(o)) ==> *final(last_error) is None,
        !(*old(last_error) matches Some(e) && e@.len() >= spec_observer_word(o).len() && e@.take(
            spec_observer_word(o).len() as int,
        ) == spec_observer_word(o)) ==> *final(last_error) == *old(last_error),
{
    let ours: bool = match last_error {
        Some(e) => {
            let v: Vec<char> = to_chars(e.as_str());
            let w: &str = observer_word(o);
            let hit: bool = chars_match_at(&v, 0, w);
            proof {
                if v@.len() >= w@.len() {
                    assert(v@.subrange(0, w@.len() as int) =~= v@.take(w@.len() as int));
                }
            }
            hit
        },
        None => false,
    };
    if ours {
        *last_error = None;
    }
}

} // verus!
