//! When the terminal's modes are set, and when they are to be restored.

use vstd::prelude::*;

verus! {

/// Whether the terminal's modes have been set, and are still to be restored.
#[derive(Debug, Clone, Copy, PartialEq, Eq, Structural)]
pub struct Modes {
    pub needs_restore: bool,
}

impl Modes {
    /// The modes after it was tried to restore them, if they are to be restored.
    pub open spec fn after_restoring(self, succeeded: bool) -> Modes {
        Modes { needs_restore: self.needs_restore && !succeeded }
    }

    /// The modes after it was tried to set them, and where that failed to restore them.
    pub open spec fn after_setting(self, succeeded: bool, restored: bool) -> Modes {
        if succeeded {
            Modes { needs_restore: true }
        } else {
            (Modes { needs_restore: true }).after_restoring(restored)
        }
    }
}

/// Modes that were set are to be restored until that has succeeded, once, and however often it
/// fails before. Modes that could not be set are to be restored only if that failed at once.
pub proof fn law_modes_are_restored_once(modes: Modes, again: bool)
    ensures
        modes.after_setting(true, again).needs_restore,
        modes.after_setting(false, again).needs_restore == !again,
        modes.needs_restore ==> modes.after_restoring(false) == modes,
        !modes.after_restoring(true).needs_restore,
        modes.after_restoring(true).after_restoring(again) == modes.after_restoring(true),
        !modes.needs_restore ==> modes.after_restoring(again) == modes,
{
}

/// Sets the terminal's modes by `enter`. They are to be restored from now on; where they cannot be
/// set, and only there, that is tried at once by `restore_modes`.
pub fn set_modes<F, G, E>(modes: &mut Modes, enter: F, restore_modes: G) -> (r: Result<(), E>)
    where F: FnOnce() -> Result<(), E>, G: FnOnce() -> Result<(), E>
    requires
        enter.requires(()),
        (exists|entered: Result<(), E>| #[trigger]
            enter.ensures((), entered) && entered is Err) ==> restore_modes.requires(()),
    ensures
        exists|entered: Result<(), E>|
            {
                &&& #[trigger] enter.ensures((), entered)
                &&& r is Ok <==> entered is Ok
                &&& r is Err ==> r->Err_0 == entered->Err_0
            },
        r is Ok ==> final(modes).needs_restore,
        r is Err ==> exists|restored: Result<(), E>| #[trigger]
            restore_modes.ensures((), restored) && final(modes).needs_restore == (restored is Err),
        r is Ok ==> *final(modes) == old(modes).after_setting(true, false),
        r is Err ==> exists|restored: Result<(), E>| #[trigger]
            restore_modes.ensures((), restored) && *final(modes) == old(modes).after_setting(
                false,
                restored is Ok,
            ),
{
    modes.needs_restore = true;
    let entered: Result<(), E> = enter();
    if entered.is_err() {
        let _ = restore(modes, restore_modes);
    }
    entered
}

/// Restores the terminal's modes by `restore_modes`, which is called only if they are to be
/// restored. They still are if that fails.
pub fn restore<G, E>(modes: &mut Modes, restore_modes: G) -> (r: Result<(), E>)
    where G: FnOnce() -> Result<(), E>
    requires
        old(modes).needs_restore ==> restore_modes.requires(()),
    ensures
        !old(modes).needs_restore ==> r is Ok && !final(modes).needs_restore,
        old(modes).needs_restore ==> exists|restored: Result<(), E>|
            {
                &&& #[trigger] restore_modes.ensures((), restored)
                &&& r is Ok <==> restored is Ok
                &&& r is Err ==> r->Err_0 == restored->Err_0
                &&& final(modes).needs_restore == (restored is Err)
            },
        *final(modes) == old(modes).after_restoring(r is Ok),
{
    if !modes.needs_restore {
        return Ok(());
    }
    modes.needs_restore = false;
    let restored: Result<(), E> = restore_modes();
    if restored.is_err() {
        modes.needs_restore = true;
    }
    restored
}

/// Restores the terminal's modes, if they are to be restored, whether or not that succeeds.
pub fn emergency_restore<G, E>(modes: &mut Modes, restore_modes: G)
    where G: FnOnce() -> Result<(), E>
    requires
        old(modes).needs_restore ==> restore_modes.requires(()),
    ensures
        !old(modes).needs_restore ==> !final(modes).needs_restore,
        old(modes).needs_restore ==> exists|restored: Result<(), E>| #[trigger]
            restore_modes.ensures((), restored) && final(modes).needs_restore == (restored is Err),
{
    let _ = restore(modes, restore_modes);
}

/// Why a session cannot start.
#[derive(Debug, Clone, Copy, PartialEq, Eq, Structural)]
pub enum StartError {
    StdinNotTerminal,
    StdoutNotTerminal,
}

impl StartError {
    /// The error in words.
    pub fn message(self) -> (r: &'static str)
        ensures
            r@ == (match self {
                StartError::StdinNotTerminal => "stdin is not a terminal"@,
                StartError::StdoutNotTerminal => "stdout is not a terminal"@,
            }),
    {
        match self {
            StartError::StdinNotTerminal => "stdin is not a terminal",
            StartError::StdoutNotTerminal => "stdout is not a terminal",
        }
    }
}

/// Whether a session can start, as standard input and output are terminals.
pub fn check_terminals(stdin_is_terminal: bool, stdout_is_terminal: bool) -> (r: Result<
    (),
    StartError,
>)
    ensures
        r is Ok <==> stdin_is_terminal && stdout_is_terminal,
        r is Err ==> r == Result::<(), StartError>::Err(
            if stdin_is_terminal {
                StartError::StdoutNotTerminal
            } else {
                StartError::StdinNotTerminal
            },
        ),
{
    if !stdin_is_terminal {
        return Err(StartError::StdinNotTerminal);
    }
    if !stdout_is_terminal {
        return Err(StartError::StdoutNotTerminal);
    }
    Ok(())
}

/// A viewport on a terminal whose modes are set.
#[derive(Debug)]
pub struct Session<V> {
    viewport: V,
    restore_on_drop: bool,
}

/// What a session holds.
pub struct SessionView<V> {
    pub viewport: V,
    /// Whether the modes are to be restored when the session is dropped.
    pub restore_on_drop: bool,
}

impl<V> View for Session<V> {
    type V = SessionView<V>;

    closed spec fn view(&self) -> SessionView<V> {
        SessionView { viewport: self.viewport, restore_on_drop: self.restore_on_drop }
    }
}

impl<V> SessionView<V> {
    /// The session after it was tried to restore the modes at its end.
    pub open spec fn finished(self, restored: bool) -> SessionView<V> {
        SessionView { restore_on_drop: self.restore_on_drop && !restored, ..self }
    }
}

/// A session whose end restored the modes restores none when it is dropped, and one whose end did
/// not still does; either keeps its viewport.
pub proof fn law_finished_session_restores_nothing_more<V>(session: SessionView<V>)
    ensures
        !session.finished(true).restore_on_drop,
        session.finished(false) == session,
        session.finished(true).viewport == session.viewport,
{
}

impl<V> Session<V> {
    /// A session with a viewport on a terminal whose modes are set.
    pub fn start(viewport: V) -> (r: Session<V>)
        ensures
            r@ == (SessionView { viewport, restore_on_drop: true }),
    {
        Session { viewport, restore_on_drop: true }
    }

    /// The viewport.
    pub fn viewport(&self) -> (r: &V)
        ensures
            *r == self@.viewport,
    {
        &self.viewport
    }

    /// The viewport.
    pub fn viewport_mut(&mut self) -> (r: &mut V)
        ensures
            *r == old(self)@.viewport,
            final(self)@ == (SessionView { viewport: *final(r), ..old(self)@ }),
    {
        &mut self.viewport
    }

    /// Whether the modes are to be restored when the session is dropped.
    pub fn restores_on_drop(&self) -> (r: bool)
        ensures
            r == self@.restore_on_drop,
    {
        self.restore_on_drop
    }

    /// What the end of the session comes to, once the viewport has been left and the modes have
    /// been restored: the error of the first, else that of the second. Modes that could not be
    /// restored are to be restored when the session is dropped.
    pub fn finish<E>(&mut self, left: Result<(), E>, restored: Result<(), E>) -> (r: Result<(), E>)
        ensures
            final(self)@ == (SessionView {
                restore_on_drop: old(self)@.restore_on_drop && restored is Err,
                ..old(self)@
            }),
            final(self)@ == old(self)@.finished(restored is Ok),
            r == (if left is Err {
                left
            } else {
                restored
            }),
    {
        if restored.is_ok() {
            self.restore_on_drop = false;
        }
        match left {
            Err(error) => Err(error),
            Ok(()) => restored,
        }
    }
}

/// The session that starts with a viewport, once the modes are set and it was tried to make the
/// viewport. Where that failed, the modes are restored by `restore_modes`, if they are to be
/// restored, and the error is handed on.
pub fn started<V, G, E>(modes: &mut Modes, created: Result<V, E>, restore_modes: G) -> (r: Result<
    Session<V>,
    E,
>)
    where G: FnOnce() -> Result<(), E>
    requires
        created is Err && old(modes).needs_restore ==> restore_modes.requires(()),
    ensures
        r is Ok <==> created is Ok,
        created matches Ok(v) ==> r->Ok_0@ == (SessionView { viewport: v, restore_on_drop: true })
            && *final(modes) == *old(modes),
        created matches Err(e) ==> r->Err_0 == e,
        created is Err && !old(modes).needs_restore ==> !final(modes).needs_restore,
        created is Err && old(modes).needs_restore ==> exists|restored: Result<(), E>| #[trigger]
            restore_modes.ensures((), restored) && final(modes).needs_restore == (restored is Err),
{
    match created {
        Ok(viewport) => Ok(Session::start(viewport)),
        Err(error) => {
            emergency_restore(modes, restore_modes);
            Err(error)
        },
    }
}

} // verus!
