//! One picker at a time, and the door that opened it closes it.
//!
//! A picker changes what the buttons do while it is up, so with two of them up
//! the one being driven is the one that cannot be seen. So there is one lock
//! per screen, a file in the session's own runtime directory held open for as
//! long as the picker lives, and what is written in it is the pid of the
//! picker holding it and the door it came out of.
//!
//! A second picker is not turned away: the one on the screen goes and the new
//! one takes its place. Asked for through the same door it came out of, it
//! goes and nothing replaces it, and a door that only opens, asked again while
//! its panel is up, is turned away.
//!
//! Taking the lock, reading and writing the file, signalling and waiting are
//! the program's around this; where the lock lives, what the file says and
//! what is decided from it are here.

use vstd::prelude::*;

use crate::decimal::{self, parse_i32};
use crate::text::{self, first_of, join, trim};

verus! {

/// Whether the lock was taken.
#[derive(Debug, Clone, Copy, PartialEq, Eq, Structural)]
pub enum Took {
    It,
    Not,
}

/// Whether a second press of the door a panel came out of puts it away.
#[derive(Debug, Clone, Copy, PartialEq, Eq, Structural)]
pub enum Again {
    Closes,
    Keeps,
}

/// Whether a picker that was up was asked to go.
#[derive(Debug, Clone, Copy, PartialEq, Eq, Structural)]
pub enum Away {
    Notified,
    Nothing,
}

/// Whether this picker is the one on the screen.
#[derive(Debug, Clone, Copy, PartialEq, Eq, Structural)]
pub enum Alone {
    Yes,
    No,
}

/// Whether the picker going is asked to go now or once the new one is drawn.
#[derive(Debug, Clone, Copy, PartialEq, Eq, Structural)]
pub enum Handover {
    Now,
    OnceDrawn,
}

/// What became of waiting for a picker that had not said its door yet.
#[derive(Debug, Clone, Copy, PartialEq, Eq, Structural)]
pub enum Meanwhile {
    Rendered,
    Free,
    Stuck,
}

/// What became of waiting for the lock to be given up.
#[derive(Debug, Clone, Copy, PartialEq, Eq, Structural)]
pub enum Outcome {
    Happened,
    RanOut,
}

/// What to do next about a lock somebody else holds.
#[derive(Debug, Clone, Copy, PartialEq, Eq, Structural)]
pub enum Turn {
    /// Stop here, with this answer.
    Answer(Alone),
    /// Write this picker into the lock and hold it.
    Keep,
    /// The holder has not said its door yet: wait a moment and see.
    WaitMeanwhile,
    /// Hold the lock as it is and ask this pid to go once drawn.
    HoldOnceDrawn(i32),
    /// Ask this pid to go now, and wait for the lock.
    Free(i32),
}

/// What to do once the picker asked to go has gone or has not.
#[derive(Debug, Clone, Copy, PartialEq, Eq, Structural)]
pub enum Freed {
    /// It would not go: this picker is not shown.
    TurnedAway,
    /// It went, and it was this door's own: put it away and show nothing.
    PutAway,
    /// It went: hold the lock.
    Keep,
}

/// `comp` joined onto the path `base`, as `Path::join` joins a component:
/// an absolute one replaces the base, and a separator is put between them
/// unless the base already ends with one.
pub open spec fn joined(base: Seq<char>, comp: Seq<char>) -> Seq<char> {
    if comp.len() > 0 && comp[0] == '/' {
        comp
    } else if base.len() == 0 || base.last() == '/' {
        base + comp
    } else {
        base + seq!['/'] + comp
    }
}

/// What a variable names, or `otherwise` when it names nothing.
pub open spec fn named_or(o: Option<Seq<char>>, otherwise: Seq<char>) -> Seq<char> {
    match o {
        Some(s) => if s.len() > 0 {
            s
        } else {
            otherwise
        },
        None => otherwise,
    }
}

/// The lock for `stem` on the screen `screen` under the runtime directory
/// `runtime`: `RUNTIME/console/STEM-SCREEN.lock`, with `/tmp` for a runtime
/// that names nothing and `no-screen-named` for a screen that names nothing.
pub open spec fn lock_at(
    runtime: Option<Seq<char>>,
    screen: Option<Seq<char>>,
    stem: Seq<char>,
) -> Seq<char> {
    joined(
        joined(named_or(runtime, "/tmp"@), "console"@),
        stem + "-"@ + named_or(screen, "no-screen-named"@) + ".lock"@,
    )
}

/// The characters of a string that may not be there.
pub open spec fn maybe(o: Option<&str>) -> Option<Seq<char>> {
    match o {
        Some(s) => Some(s@),
        None => None,
    }
}

/// `comp` joined onto the path `base`.
pub fn join_path(base: &Vec<char>, comp: &Vec<char>) -> (r: Vec<char>)
    ensures
        r@ == joined(base@, comp@),
{
    if comp.len() > 0 && comp[0] == '/' {
        return comp.clone();
    }
    let mut r = base.clone();
    if !(base.len() == 0 || base[base.len() - 1] == '/') {
        r.push('/');
    }
    text::extend(&mut r, comp);
    r
}

/// What a variable names, or `otherwise` when it names nothing.
fn or_else(o: Option<&str>, otherwise: &str) -> (r: Vec<char>)
    ensures
        r@ == named_or(maybe(o), otherwise@),
{
    match o {
        Some(s) => {
            let v = text::letters(s);
            if v.len() > 0 {
                v
            } else {
                text::letters(otherwise)
            }
        },
        None => text::letters(otherwise),
    }
}

/// Where the lock for `stem` lives.
pub fn under(runtime: Option<&str>, screen: Option<&str>, stem: &str) -> (r: String)
    ensures
        r@ == lock_at(maybe(runtime), maybe(screen), stem@),
{
    let base = join_path(&or_else(runtime, "/tmp"), &text::letters("console"));
    let mut name = text::letters(stem);
    text::extend(&mut name, &text::letters("-"));
    text::extend(&mut name, &or_else(screen, "no-screen-named"));
    text::extend(&mut name, &text::letters(".lock"));
    text::text(&join_path(&base, &name))
}

/// The stem of a picker's lock.
pub open spec fn picker_stem() -> Seq<char> {
    "picker"@
}

/// The stem of the lock of the app `app`.
pub open spec fn app_stem(app: Seq<char>) -> Seq<char> {
    "app-"@ + app
}

/// Where the pickers' lock lives, given what the session says its runtime
/// directory and its screen are.
pub fn where_under(runtime: Option<&str>, screen: Option<&str>) -> (r: String)
    ensures
        r@ == lock_at(maybe(runtime), maybe(screen), picker_stem()),
{
    under(runtime, screen, "picker")
}

/// Where the lock of the app `app` lives, given what the session says its
/// runtime directory and its screen are.
pub fn where_for_under(runtime: Option<&str>, screen: Option<&str>, app: &str) -> (r: String)
    ensures
        r@ == lock_at(maybe(runtime), maybe(screen), app_stem(app@)),
{
    let mut stem = text::letters("app-");
    text::extend(&mut stem, &text::letters(app));
    under(runtime, screen, text::text(&stem).as_str())
}

/// The directory every lock of a session lives in.
pub open spec fn lock_dir(runtime: Option<Seq<char>>) -> Seq<char> {
    joined(named_or(runtime, "/tmp"@), "console"@)
}

/// The file a lock for `stem` on the screen `screen` is.
pub open spec fn lock_name(stem: Seq<char>, screen: Option<Seq<char>>) -> Seq<char> {
    stem + "-"@ + named_or(screen, "no-screen-named"@) + ".lock"@
}

/// A lock whose stem is no absolute path is its file in the directory of
/// every lock.
proof fn lemma_a_lock_is_in_the_lock_dir(
    runtime: Option<Seq<char>>,
    screen: Option<Seq<char>>,
    stem: Seq<char>,
)
    requires
        stem.len() > 0,
        stem[0] != '/',
    ensures
        lock_at(runtime, screen, stem) == lock_dir(runtime) + seq!['/'] + lock_name(stem, screen),
{
    reveal_strlit("console");
    let base = named_or(runtime, "/tmp"@);
    let dir = lock_dir(runtime);
    assert(dir.last() == 'e') by {
        if base.len() == 0 || base.last() == '/' {
            assert(dir == base + "console"@);
        } else {
            assert(dir == base + seq!['/'] + "console"@);
        }
    }
    assert(lock_name(stem, screen)[0] == stem[0]);
}

/// An app's lock sits beside the pickers' lock, in the same directory, and
/// is never that lock; and two apps never share a lock.
pub proof fn lemma_an_app_lock_sits_beside_the_pickers_lock(
    runtime: Option<Seq<char>>,
    screen: Option<Seq<char>>,
    app: Seq<char>,
    other: Seq<char>,
)
    ensures
        lock_at(runtime, screen, app_stem(app)) == lock_dir(runtime) + seq!['/'] + lock_name(
            app_stem(app),
            screen,
        ),
        lock_at(runtime, screen, picker_stem()) == lock_dir(runtime) + seq!['/'] + lock_name(
            picker_stem(),
            screen,
        ),
        lock_at(runtime, screen, app_stem(app)) != lock_at(runtime, screen, picker_stem()),
        app != other ==> lock_at(runtime, screen, app_stem(app)) != lock_at(
            runtime,
            screen,
            app_stem(other),
        ),
{
    reveal_strlit("app-");
    reveal_strlit("picker");
    lemma_a_lock_is_in_the_lock_dir(runtime, screen, app_stem(app));
    lemma_a_lock_is_in_the_lock_dir(runtime, screen, picker_stem());
    lemma_a_lock_is_in_the_lock_dir(runtime, screen, app_stem(other));
    let head = lock_dir(runtime) + seq!['/'];
    let n = head.len() as int;
    let mine = lock_at(runtime, screen, app_stem(app));
    let theirs = lock_at(runtime, screen, picker_stem());
    assert(mine[n] == 'a');
    assert(theirs[n] == 'p');
    let tail = "-"@ + named_or(screen, "no-screen-named"@) + ".lock"@;
    if app != other && mine == lock_at(runtime, screen, app_stem(other)) {
        let yours = lock_at(runtime, screen, app_stem(other));
        assert(mine =~= head + "app-"@ + app + tail);
        assert(yours =~= head + "app-"@ + other + tail);
        assert(app.len() == other.len());
        assert(app =~= other) by {
            assert forall|k: int| 0 <= k < app.len() implies app[k] == other[k] by {
                assert(mine[n + 4 + k] == app[k]);
                assert(yours[n + 4 + k] == other[k]);
            }
        }
    }
}

/// The pid a word names, or nought when it names none.
pub open spec fn pid_of(s: Seq<char>) -> i32 {
    match parse_i32(s) {
        Some(p) => p,
        None => 0,
    }
}

/// What a lock file says: the pid holding it and the door it came out of,
/// the two separated by the first space once the ends are trimmed.
pub open spec fn holder_of(said: Seq<char>) -> (i32, Seq<char>) {
    let t = trim(said);
    if t.contains(' ') {
        let i = first_of(t, ' ');
        (pid_of(t.take(i)), t.skip(i + 1))
    } else {
        (pid_of(t), Seq::empty())
    }
}

/// Who holds the lock and which door they came out of.
pub fn holder(said: &str) -> (r: (i32, String))
    ensures
        r.0 == holder_of(said@).0,
        r.1@ == holder_of(said@).1,
{
    let t = text::trimmed(&text::letters(said));
    let (pid, name) = match text::find_first(&t, ' ') {
        Some(i) => {
            assert(t@.subrange(0, i as int) =~= t@.take(i as int));
            assert(t@.subrange(i + 1, t@.len() as int) =~= t@.skip(i + 1));
            (text::slice(&t, 0, i), text::slice(&t, i + 1, t.len()))
        },
        None => (t.clone(), Vec::new()),
    };
    let pid = match decimal::parsed_i32(&pid) {
        Some(p) => p,
        None => 0,
    };
    assert(name@ =~= holder_of(said@).1);
    (pid, text::text(&name))
}

/// The name of a door, as it is written in the lock.
pub fn door(name: &str) -> (r: String)
    ensures
        r@ == trim(name@),
{
    text::text(&text::trimmed(&text::letters(name)))
}

/// The door of an app asked for with `asked`: its name and its arguments,
/// a space between each two.
pub open spec fn app_door(app: Seq<char>, asked: Seq<Seq<char>>) -> Seq<char> {
    join(seq![app] + asked, ' ')
}

/// The door of an app asked for with `asked`.
pub fn door_of_app(app: &str, asked: &Vec<String>) -> (r: String)
    ensures
        r@ == app_door(app@, asked@.map_values(|s: String| s@)),
{
    let mut words: Vec<Vec<char>> = Vec::new();
    words.push(text::letters(app));
    let ghost args = asked@.map_values(|s: String| s@);
    let mut i: usize = 0;
    while i < asked.len()
        invariant
            i <= asked.len(),
            args == asked@.map_values(|s: String| s@),
            words@.map_values(|v: Vec<char>| v@) == seq![app@] + args.take(i as int),
        decreases asked.len() - i,
    {
        let ghost before = words@.map_values(|v: Vec<char>| v@);
        let w = text::letters(asked[i].as_str());
        words.push(w);
        assert(words@.map_values(|v: Vec<char>| v@) =~= before.push(args[i as int]));
        i += 1;
        assert(args.take(i as int) =~= args.take(i - 1).push(args[i - 1]));
    }
    assert(args.take(i as int) =~= args);
    text::text(&text::join_with(&words, ' '))
}

/// What is done about a lock held by the pid `pid`, whose file names the
/// door `holding`, when this picker, pid `ours`, came out of the door `name`
/// and asks with `again` and `handover`.
pub open spec fn held_turn(
    pid: i32,
    ours: i32,
    holding: Seq<char>,
    name: Seq<char>,
    again: Again,
    handover: Handover,
) -> Turn {
    if pid == 0 || pid == ours {
        Turn::Answer(Alone::No)
    } else if holding == name && again == Again::Keeps {
        Turn::Answer(Alone::No)
    } else if holding.len() == 0 {
        Turn::WaitMeanwhile
    } else {
        hand_turn(pid, holding == name, handover)
    }
}

/// Whether the one going is asked to go now or once the new one is drawn:
/// once drawn only when asked for that and it is another door's.
pub open spec fn hand_turn(pid: i32, same_door: bool, handover: Handover) -> Turn {
    if handover == Handover::OnceDrawn && !same_door {
        Turn::HoldOnceDrawn(pid)
    } else {
        Turn::Free(pid)
    }
}

/// The door whose panel is up, pressed again where that closes it, has the
/// one showing it asked to go now, whichever hand-over was asked for: only
/// the holder of another door is kept until the new one is drawn.
pub proof fn lemma_the_same_door_again_frees_its_holder_now(
    pid: i32,
    ours: i32,
    name: Seq<char>,
    handover: Handover,
)
    requires
        pid != 0,
        pid != ours,
        name.len() > 0,
    ensures
        held_turn(pid, ours, name, name, Again::Closes, handover) == Turn::Free(pid),
        hand_turn(pid, true, handover) == Turn::Free(pid),
{
}

/// A holder is kept until the new panel is drawn only when a hand-over once
/// drawn was asked for and it holds another door than the one pressed.
pub proof fn lemma_only_another_door_is_held_until_drawn(
    pid: i32,
    ours: i32,
    holding: Seq<char>,
    name: Seq<char>,
    again: Again,
    handover: Handover,
)
    ensures
        held_turn(pid, ours, holding, name, again, handover) is HoldOnceDrawn ==> {
            &&& handover == Handover::OnceDrawn
            &&& holding != name
            &&& held_turn(pid, ours, holding, name, again, handover) == Turn::HoldOnceDrawn(pid)
        },
{
}

/// What is done about the lock `said` says is held by somebody else.
pub fn held_by(said: &str, ours: i32, name: &str, again: Again, handover: Handover) -> (t: Turn)
    ensures
        t == held_turn(
            holder_of(said@).0,
            ours,
            holder_of(said@).1,
            name@,
            again,
            handover,
        ),
{
    let (pid, holding) = holder(said);
    let held = text::letters(holding.as_str());
    let same = text::same(&held, &text::letters(name));
    if pid == 0 || pid == ours {
        Turn::Answer(Alone::No)
    } else if same && again == Again::Keeps {
        Turn::Answer(Alone::No)
    } else if held.len() == 0 {
        Turn::WaitMeanwhile
    } else {
        hand(pid, same, handover)
    }
}

/// Whether the one going is asked to go now or once the new one is drawn.
pub fn hand(pid: i32, same_door: bool, handover: Handover) -> (t: Turn)
    ensures
        t == hand_turn(pid, same_door, handover),
{
    if handover == Handover::OnceDrawn && !same_door {
        Turn::HoldOnceDrawn(pid)
    } else {
        Turn::Free(pid)
    }
}

/// What is done once the holder that had not said its door has been waited
/// for: turned away when it drew, kept when it went, and otherwise asked to
/// go as any other holder would be.
pub fn after_meanwhile(
    m: Meanwhile,
    pid: i32,
    same_door: bool,
    handover: Handover,
) -> (t: Turn)
    ensures
        t == (match m {
            Meanwhile::Rendered => Turn::Answer(Alone::No),
            Meanwhile::Free => Turn::Keep,
            Meanwhile::Stuck => hand_turn(pid, same_door, handover),
        }),
{
    match m {
        Meanwhile::Rendered => Turn::Answer(Alone::No),
        Meanwhile::Free => Turn::Keep,
        Meanwhile::Stuck => hand(pid, same_door, handover),
    }
}

/// What is done once the one asked to go has gone or has not.
pub fn after_freeing(o: Outcome, same_door: bool) -> (f: Freed)
    ensures
        f == (match o {
            Outcome::RanOut => Freed::TurnedAway,
            Outcome::Happened => if same_door {
                Freed::PutAway
            } else {
                Freed::Keep
            },
        }),
{
    match o {
        Outcome::RanOut => Freed::TurnedAway,
        Outcome::Happened => if same_door {
            Freed::PutAway
        } else {
            Freed::Keep
        },
    }
}

/// A door that only opens, asked for again while its panel is up, is turned
/// away rather than closing the panel or opening a second one.
pub proof fn lemma_a_door_that_only_opens_is_not_asked_twice(
    pid: i32,
    ours: i32,
    name: Seq<char>,
    handover: Handover,
)
    ensures
        held_turn(pid, ours, name, name, Again::Keeps, handover) == Turn::Answer(Alone::No),
{
}

/// A picker never asks itself, or nobody, to go.
pub proof fn lemma_nobody_is_asked_to_go_for_nothing(
    pid: i32,
    ours: i32,
    holding: Seq<char>,
    name: Seq<char>,
    again: Again,
    handover: Handover,
)
    ensures
        match held_turn(pid, ours, holding, name, again, handover) {
            Turn::Free(p) | Turn::HoldOnceDrawn(p) => p == pid && p != 0 && p != ours,
            _ => true,
        },
{
}

/// Which pid, if any, a picker being put away is asked to go: the one the
/// lock names, when somebody holds the lock and it names one.
pub fn to_tell(took: Took, said: &str) -> (r: Option<i32>)
    ensures
        r == (if took == Took::It || holder_of(said@).0 <= 0 {
            None::<i32>
        } else {
            Some(holder_of(said@).0)
        }),
{
    if took == Took::It {
        return None;
    }
    let (pid, _door) = holder(said);
    if pid <= 0 {
        None
    } else {
        Some(pid)
    }
}

/// What a lock file says once the picker `pid` holds it for the door
/// `name`: the pid, a space, and the door.
pub open spec fn written_of(pid: u32, name: Seq<char>) -> Seq<char> {
    decimal::digits(pid as nat) + seq![' '] + name
}

/// What a lock file says once the picker `pid` holds it for the door `name`.
pub fn written(pid: u32, name: &str) -> (r: String)
    ensures
        r@ == written_of(pid, name@),
{
    let mut v = decimal::written(pid as u64);
    v.push(' ');
    text::extend(&mut v, &text::letters(name));
    text::text(&v)
}

/// A pid written out, with its sign, is read back as itself and holds no
/// space, and neither end of it is white space.
proof fn lemma_a_pid_written(pid: i32)
    ensures
        ({
            let d = decimal::signed_digits(pid as int);
            &&& d.len() >= 1
            &&& !d.contains(' ')
            &&& !text::is_white_space(d[0])
            &&& !text::is_white_space(d.last())
            &&& pid_of(d) == pid
        }),
{
    let d = decimal::signed_digits(pid as int);
    decimal::lemma_parse_i32_digits(pid);
    if pid < 0 {
        let m = decimal::digits((-pid) as nat);
        decimal::lemma_digits((-pid) as nat);
        assert(d == seq!['-'] + m);
        assert(d.last() == m.last());
        assert(decimal::is_digit(m[m.len() - 1]));
        assert(!d.contains(' ')) by {
            if d.contains(' ') {
                let k = choose|k: int| 0 <= k < d.len() && d[k] == ' ';
                assert(k > 0);
                assert(d[k] == m[k - 1]);
                assert(decimal::is_digit(m[k - 1]));
            }
        }
    } else {
        decimal::lemma_digits(pid as nat);
        assert(decimal::is_digit(d[0]));
        assert(decimal::is_digit(d[d.len() - 1]));
        assert(!d.contains(' ')) by {
            if d.contains(' ') {
                let k = choose|k: int| 0 <= k < d.len() && d[k] == ' ';
                assert(decimal::is_digit(d[k]));
            }
        }
    }
}

/// A holder is read back as it was written: the pid, with its sign, a
/// space and the door are read as that pid and that door, for every pid an
/// `i32` holds and every door with no white space at its ends, as `door`
/// leaves it.
pub proof fn lemma_a_holder_is_read_back(pid: i32, name: Seq<char>)
    requires
        trim(name) == name,
    ensures
        holder_of(decimal::signed_digits(pid as int) + seq![' '] + name) == (pid, name),
{
    let d = decimal::signed_digits(pid as int);
    let said = d + seq![' '] + name;
    lemma_a_pid_written(pid);
    assert(said[d.len() as int] == ' ');
    assert(said[0] == d[0]);
    assert(text::trim_start(said) == said);
    let t = trim(said);
    if name.len() == 0 {
        assert(said == d + seq![' ']);
        assert(said.drop_last() =~= d);
        assert(text::is_white_space(said.last()));
        assert(text::trim_end(said) == text::trim_end(d));
        assert(t == d);
        assert(!t.contains(' '));
        assert(t =~= d);
    } else {
        assert(!text::is_white_space(name[0]) && !text::is_white_space(name.last())) by {
            if text::is_white_space(name[0]) {
                assert(text::trim_start(name) == text::trim_start(name.drop_first()));
                lemma_trimmed_shorter(name.drop_first());
            }
            if text::is_white_space(name.last()) {
                lemma_trim_start_keeps_last(name);
            }
        }
        assert(said.last() == name.last());
        assert(t == said);
        assert(text::is_first(t, ' ', d.len() as int)) by {
            assert forall|k: int| 0 <= k < d.len() implies t[k] != ' ' by {
                assert(t[k] == d[k]);
                if d[k] == ' ' {
                    assert(d.contains(' '));
                }
            }
        }
        text::lemma_first_unique(t, ' ', d.len() as int);
        assert(t.take(d.len() as int) =~= d);
        assert(t.skip(d.len() as int + 1) =~= name);
    }
}

/// The file says who is holding it and which door they came out of: what a
/// picker writes into the lock is read back as its pid and its door,
/// whenever the pid is one an `i32` holds and the door has no white space
/// at its ends, as `door` leaves it.
pub proof fn lemma_the_lock_says_who_holds_it(pid: u32, name: Seq<char>)
    requires
        pid <= i32::MAX,
        trim(name) == name,
    ensures
        holder_of(written_of(pid, name)) == (pid as i32, name),
{
    lemma_a_holder_is_read_back(pid as i32, name);
    assert(decimal::signed_digits(pid as i32 as int) == decimal::digits(pid as nat));
}

/// How a picker holds its lock: outright, or still waiting for the one
/// before it, `pid`, to go once it is drawn.
#[derive(Debug, Clone, Copy, PartialEq, Eq, Structural)]
pub enum Lock {
    Acquired,
    AfterDrawing(i32),
}

/// The door written into the lock once the picker is drawn: its own, when
/// it holds the lock outright; nothing, while the one before still holds it.
pub open spec fn drawn_door_of(lock: Lock, name: Seq<char>) -> Option<Seq<char>> {
    match lock {
        Lock::Acquired => Some(name),
        Lock::AfterDrawing(_) => None,
    }
}

/// The door written into the lock once the picker is drawn.
pub fn drawn(lock: Lock, name: &str) -> (r: Option<String>)
    ensures
        match r {
            Some(n) => drawn_door_of(lock, name@) == Some(n@),
            None => drawn_door_of(lock, name@) is None,
        },
{
    match lock {
        Lock::Acquired => Some(text::text(&text::letters(name))),
        Lock::AfterDrawing(_) => None,
    }
}

/// The door written into the lock once the picker has gone: none, when it
/// holds the lock outright; nothing is written while the one before still
/// holds it.
pub fn gone(lock: Lock) -> (r: Option<String>)
    ensures
        match lock {
            Lock::Acquired => r matches Some(n) && n@.len() == 0,
            Lock::AfterDrawing(_) => r is None,
        },
{
    match lock {
        Lock::Acquired => Some(String::new()),
        Lock::AfterDrawing(_) => None,
    }
}

/// Which picker is asked to go once this one is drawn, if any: the one
/// before, while it still holds the lock.
pub open spec fn taken_over_of(lock: Lock) -> Option<i32> {
    match lock {
        Lock::Acquired => None::<i32>,
        Lock::AfterDrawing(pid) => Some(pid),
    }
}

/// Which picker is asked to go once this one is drawn, if any.
pub fn taken_over(lock: Lock) -> (r: Option<i32>)
    ensures
        r == taken_over_of(lock),
{
    match lock {
        Lock::Acquired => None,
        Lock::AfterDrawing(pid) => Some(pid),
    }
}

/// How the lock is held once the one before was asked to go: outright when
/// it went, and as it was when it did not.
pub open spec fn after_taking_over_of(lock: Lock, o: Outcome) -> Lock {
    match (lock, o) {
        (Lock::AfterDrawing(_), Outcome::Happened) => Lock::Acquired,
        _ => lock,
    }
}

/// How the lock is held once the one before was asked to go.
pub fn after_taking_over(lock: Lock, o: Outcome) -> (r: Lock)
    ensures
        r == after_taking_over_of(lock, o),
{
    match (lock, o) {
        (Lock::AfterDrawing(_), Outcome::Happened) => Lock::Acquired,
        _ => lock,
    }
}

/// A picker that takes the screen once it is drawn, from another picker
/// `pid` that holds it for another door `holding`, is answered at once and
/// asks nobody to go yet; it holds the lock as it is, writing nothing of its
/// own into it while the one before still holds it. Once it is drawn, the
/// one before is asked to go; and only when it has gone is this picker's
/// door written, the lock then held outright.
pub proof fn lemma_a_picker_takes_over_once_drawn(
    pid: i32,
    ours: i32,
    holding: Seq<char>,
    name: Seq<char>,
    again: Again,
)
    requires
        pid > 0,
        pid != ours,
        holding.len() > 0,
        holding != name,
    ensures
        held_turn(pid, ours, holding, name, again, Handover::OnceDrawn) == Turn::HoldOnceDrawn(pid),
        drawn_door_of(Lock::AfterDrawing(pid), name) is None,
        taken_over_of(Lock::AfterDrawing(pid)) == Some(pid),
        after_taking_over_of(Lock::AfterDrawing(pid), Outcome::RanOut) == Lock::AfterDrawing(pid),
        after_taking_over_of(Lock::AfterDrawing(pid), Outcome::Happened) == Lock::Acquired,
        drawn_door_of(Lock::Acquired, name) == Some(name),
        taken_over_of(Lock::Acquired) is None,
{
}

/// Trimming never makes a run longer.
proof fn lemma_trimmed_shorter(s: Seq<char>)
    ensures
        trim(s).len() <= s.len(),
    decreases s.len(),
{
    lemma_trim_start_shorter(s);
    lemma_trim_end_shorter(text::trim_start(s));
}

/// Trimming the front never makes a run longer.
proof fn lemma_trim_start_shorter(s: Seq<char>)
    ensures
        text::trim_start(s).len() <= s.len(),
    decreases s.len(),
{
    if s.len() > 0 && text::is_white_space(s[0]) {
        lemma_trim_start_shorter(s.drop_first());
    }
}

/// Trimming the end never makes a run longer, and a run whose end is white
/// loses it.
proof fn lemma_trim_end_shorter(s: Seq<char>)
    ensures
        text::trim_end(s).len() <= s.len(),
        s.len() > 0 && text::is_white_space(s.last()) ==> text::trim_end(s).len() < s.len(),
    decreases s.len(),
{
    if s.len() > 0 && text::is_white_space(s.last()) {
        lemma_trim_end_shorter(s.drop_last());
    }
}

/// A run whose front is not white and whose end is white is made shorter by
/// trimming.
proof fn lemma_trim_start_keeps_last(s: Seq<char>)
    requires
        s.len() > 0,
        text::is_white_space(s.last()),
    ensures
        trim(s) != s,
    decreases s.len(),
{
    lemma_trim_start_shorter(s);
    let f = text::trim_start(s);
    if f.len() == s.len() {
        assert(f == s) by {
            lemma_trim_start_same(s);
        }
        lemma_trim_end_shorter(s);
    } else {
        lemma_trim_end_shorter(f);
    }
}

/// Trimming the front without making a run shorter leaves it as it was.
proof fn lemma_trim_start_same(s: Seq<char>)
    requires
        text::trim_start(s).len() == s.len(),
    ensures
        text::trim_start(s) == s,
{
    if s.len() > 0 && text::is_white_space(s[0]) {
        lemma_trim_start_shorter(s.drop_first());
    }
}

/// A lock file found beside the pickers' own: its file name, whether
/// somebody holds it, and when it was last written, in nanoseconds since the
/// epoch.
#[derive(Debug, Clone, PartialEq, Eq)]
pub struct Found {
    pub name: String,
    pub held: bool,
    pub when: u64,
}

/// Whether `s` begins with `p`.
pub open spec fn begins(s: Seq<char>, p: Seq<char>) -> bool {
    p.len() <= s.len() && s.take(p.len() as int) == p
}

/// Whether `s` ends with `p`.
pub open spec fn ends(s: Seq<char>, p: Seq<char>) -> bool {
    p.len() <= s.len() && s.skip(s.len() - p.len()) == p
}

/// Whether `a` comes before `b`, letter by letter.
pub open spec fn before(a: Seq<char>, b: Seq<char>) -> bool
    decreases a.len(),
{
    if a.len() == 0 {
        b.len() > 0
    } else if b.len() == 0 {
        false
    } else if a[0] != b[0] {
        (a[0] as u32) < (b[0] as u32)
    } else {
        before(a.drop_first(), b.drop_first())
    }
}

/// Whether the lock `f` is an app's held on the screen whose locks end
/// with `screen`.
pub open spec fn an_app_up(f: Found, screen: Seq<char>) -> bool {
    f.held && begins(f.name@, "app-"@) && ends(f.name@, screen)
}

/// Whether `a` came up after `b`: written later, or written at the same
/// moment and named after it.
pub open spec fn later(a: Found, b: Found) -> bool {
    a.when > b.when || (a.when == b.when && before(b.name@, a.name@))
}

/// The screen the pickers' lock called `picker` is for, as the end of a
/// lock's name: what follows `picker`, when it begins so.
pub open spec fn screen_of(picker: Seq<char>) -> Option<Seq<char>> {
    if begins(picker, "picker"@) {
        Some(picker.skip(6))
    } else {
        None
    }
}

/// Which of the locks `found` is the app on top, beside the pickers' lock
/// called `picker`: one held for an app on the same screen that nothing of
/// the kind came up after; none, when no app is up there.
pub fn on_top(picker: &str, found: &Vec<Found>) -> (r: Option<usize>)
    ensures
        match screen_of(picker@) {
            None => r is None,
            Some(screen) => match r {
                None => forall|i: int| 0 <= i < found@.len() ==> !an_app_up(#[trigger] found@[i], screen),
                Some(at) => {
                    &&& at < found@.len()
                    &&& an_app_up(found@[at as int], screen)
                    &&& forall|j: int|
                        0 <= j < found@.len() && an_app_up(#[trigger] found@[j], screen) ==> !later(
                            found@[j],
                            found@[at as int],
                        )
                },
            },
        },
{
    let name = text::letters(picker);
    let stem = text::letters("picker");
    proof {
        reveal_strlit("picker");
    }
    if !begins_with(&name, &stem) {
        return None;
    }
    let screen = text::slice(&name, 6, name.len());
    assert(screen@ =~= picker@.skip(6));
    let app = text::letters("app-");
    let mut best: Option<usize> = None;
    let mut i: usize = 0;
    while i < found.len()
        invariant
            i <= found@.len(),
            screen@ == picker@.skip(6),
            app@ == "app-"@,
            match best {
                None => forall|k: int| 0 <= k < i ==> !an_app_up(#[trigger] found@[k], screen@),
                Some(b) => {
                    &&& b < i
                    &&& an_app_up(found@[b as int], screen@)
                    &&& forall|k: int|
                        0 <= k < i && an_app_up(#[trigger] found@[k], screen@) ==> !later(
                            found@[k],
                            found@[b as int],
                        )
                },
            },
        decreases found.len() - i,
    {
        let f = &found[i];
        let n = text::letters(f.name.as_str());
        let up = f.held && begins_with(&n, &app) && ends_with(&n, &screen);
        assert(up == an_app_up(found@[i as int], screen@));
        if up {
            match best {
                None => {
                    proof {
                        lemma_not_before_itself(found@[i as int].name@);
                    }
                    best = Some(i);
                },
                Some(b) => {
                    let g = &found[b];
                    let m = text::letters(g.name.as_str());
                    let after = f.when > g.when || (f.when == g.when && comes_before(&m, &n));
                    if after {
                        proof {
                            assert forall|k: int|
                                0 <= k < i + 1 && an_app_up(#[trigger] found@[k], screen@) implies !later(
                                found@[k],
                                found@[i as int],
                            ) by {
                                if k < i && later(found@[k], found@[i as int]) {
                                    lemma_later_passes_on(found@[k], found@[i as int], found@[b as int]);
                                }
                                if k == i {
                                    lemma_not_before_itself(found@[k].name@);
                                }
                            }
                        }
                        best = Some(i);
                    }
                },
            }
        }
        proof {
            if best is None {
                assert(!an_app_up(found@[i as int], screen@));
                assert forall|k: int| 0 <= k < i + 1 implies !an_app_up(#[trigger] found@[k], screen@) by {
                    if k == i {
                        assert(!an_app_up(found@[i as int], screen@));
                    }
                }
            }
        }
        i += 1;
    }
    best
}

/// Nothing comes before itself.
proof fn lemma_not_before_itself(a: Seq<char>)
    ensures
        !before(a, a),
    decreases a.len(),
{
    if a.len() > 0 {
        lemma_not_before_itself(a.drop_first());
    }
}

/// Coming before passes on.
proof fn lemma_before_passes_on(a: Seq<char>, b: Seq<char>, c: Seq<char>)
    requires
        before(a, b),
        before(b, c),
    ensures
        before(a, c),
    decreases a.len(),
{
    if a.len() > 0 && b.len() > 0 && c.len() > 0 && a[0] == b[0] && b[0] == c[0] {
        lemma_before_passes_on(a.drop_first(), b.drop_first(), c.drop_first());
    }
}

/// Coming up later passes on.
proof fn lemma_later_passes_on(a: Found, b: Found, c: Found)
    requires
        later(a, b),
        later(b, c),
    ensures
        later(a, c),
{
    if a.when == b.when && b.when == c.when {
        lemma_before_passes_on(c.name@, b.name@, a.name@);
    }
}

/// Whether `s` begins with `p`.
fn begins_with(s: &Vec<char>, p: &Vec<char>) -> (r: bool)
    ensures
        r == begins(s@, p@),
{
    if p.len() > s.len() {
        return false;
    }
    let mut i: usize = 0;
    while i < p.len()
        invariant
            i <= p.len() <= s.len(),
            forall|k: int| 0 <= k < i ==> s@[k] == p@[k],
        decreases p.len() - i,
    {
        if s[i] != p[i] {
            assert(s@.take(p.len() as int)[i as int] != p@[i as int]);
            return false;
        }
        i += 1;
    }
    assert(s@.take(p.len() as int) =~= p@);
    true
}

/// Whether `s` ends with `p`.
fn ends_with(s: &Vec<char>, p: &Vec<char>) -> (r: bool)
    ensures
        r == ends(s@, p@),
{
    if p.len() > s.len() {
        return false;
    }
    let from = s.len() - p.len();
    let mut i: usize = 0;
    while i < p.len()
        invariant
            i <= p.len() <= s.len(),
            from == s.len() - p.len(),
            forall|k: int| 0 <= k < i ==> s@[from + k] == p@[k],
        decreases p.len() - i,
    {
        if s[from + i] != p[i] {
            assert(s@.skip(from as int)[i as int] != p@[i as int]);
            return false;
        }
        i += 1;
    }
    assert(s@.skip(from as int) =~= p@);
    true
}

/// Whether `a` comes before `b`, letter by letter.
fn comes_before(a: &Vec<char>, b: &Vec<char>) -> (r: bool)
    ensures
        r == before(a@, b@),
{
    let mut i: usize = 0;
    assert(a@.skip(0) =~= a@);
    assert(b@.skip(0) =~= b@);
    while i < a.len() && i < b.len()
        invariant
            i <= a.len(),
            i <= b.len(),
            before(a@, b@) == before(a@.skip(i as int), b@.skip(i as int)),
        decreases a.len() - i,
    {
        if a[i] != b[i] {
            let r = (a[i] as u32) < (b[i] as u32);
            assert(a@.skip(i as int)[0] == a@[i as int]);
            assert(b@.skip(i as int)[0] == b@[i as int]);
            return r;
        }
        assert(a@.skip(i as int).drop_first() =~= a@.skip(i + 1));
        assert(b@.skip(i as int).drop_first() =~= b@.skip(i + 1));
        i += 1;
    }
    assert(a@.skip(i as int).len() == a@.len() - i);
    assert(b@.skip(i as int).len() == b@.len() - i);
    i >= a.len() && i < b.len()
}

} // verus!
