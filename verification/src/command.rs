use vstd::prelude::*;

use tokio::sync::mpsc::UnboundedSender;

use crate::error::BleError;

verus! {

#[verifier::external_type_specification]
#[verifier::external_body]
#[verifier::reject_recursive_types(T)]
pub struct ExUnboundedSender<T>(UnboundedSender<T>);

/// A request for the message loop. `S` is the stream on which a scan
/// reports the devices it sees.
pub enum Command<S> {
    Scan { sink: S, filter: Vec<String> },
    StopScan,
    Connect { id: String },
    Disconnect { id: String },
}

impl<S> Command<S> {
    /// The name under which the command shows in diagnostics.
    pub fn name(&self) -> (n: &'static str)
        ensures
            self is Scan ==> n@ == "Scan"@,
            self is StopScan ==> n@ == "StopScan"@,
            self is Connect ==> n@ == "Connect"@,
            self is Disconnect ==> n@ == "Disconnect"@,
    {
        match self {
            Command::Scan { .. } => "Scan",
            Command::Connect { .. } => "Connect",
            Command::Disconnect { .. } => "Disconnect",
            Command::StopScan => "StopScan",
        }
    }
}

/// An installed command channel: tokio's sending half, and the log of the
/// commands the channel has accepted so far, in the order it accepted them.
/// tokio's unbounded channel hands accepted messages to its receiver in
/// that same order.
#[verifier::reject_recursive_types(S)]
pub struct Channel<S> {
    tx: UnboundedSender<Command<S>>,
    handed: Ghost<Seq<Command<S>>>,
}

/// Calls tokio's `UnboundedSender::send` on the channel's sending half.
/// Whether the message is accepted depends on whether the receiving half is
/// still open, which nothing here can see, so only this is claimed: when the
/// channel refuses the message, the error carries back exactly the message
/// that was passed in and nothing was queued; when it accepts it, that
/// message is queued behind the ones accepted before (the log grows by it).
/// (The source also aborts the process if the count of queued messages would
/// overflow; nothing here states that.)
#[verifier::external_body]
fn channel_send<S>(channel: &mut Channel<S>, command: Command<S>) -> (refused: Option<Command<S>>)
    ensures
        final(channel).tx == old(channel).tx,
        refused matches Some(c) ==> c == command && final(channel).handed@ == old(channel).handed@,
        refused is None ==> final(channel).handed@ == old(channel).handed@.push(command),
{
    match channel.tx.send(command) {
        Ok(()) => None,
        Err(e) => Some(e.0),
    }
}

/// The sending half of the command channel, installed once.
#[verifier::reject_recursive_types(S)]
pub struct CommandSender<S> {
    channel: Option<Channel<S>>,
}

impl<S> CommandSender<S> {
    /// Whether the channel has been installed.
    pub closed spec fn initialized(&self) -> bool {
        self.channel is Some
    }

    /// The commands the installed channel has accepted, oldest first; empty
    /// before installation.
    pub closed spec fn handed(&self) -> Seq<Command<S>> {
        match self.channel {
            Some(c) => c.handed@,
            None => Seq::empty(),
        }
    }

    /// A sender with no channel installed yet.
    pub fn new() -> (sender: Self)
        ensures
            !sender.initialized(),
            sender.handed() == Seq::<Command<S>>::empty(),
    {
        CommandSender { channel: None }
    }

    /// Whether the channel has been installed.
    pub fn is_initialized(&self) -> (installed: bool)
        ensures
            installed == self.initialized(),
    {
        self.channel.is_some()
    }

    /// Installs the channel. Only the first installation takes effect: a
    /// later one is refused with `TxAlreadySet` and leaves the sender as it was.
    pub fn set(&mut self, tx: UnboundedSender<Command<S>>) -> (outcome: Result<(), BleError>)
        ensures
            final(self).initialized(),
            old(self).initialized() ==> outcome == Err::<(), BleError>(BleError::TxAlreadySet) && *final(self)
                == *old(self),
            !old(self).initialized() ==> outcome is Ok && final(self).handed() == Seq::<Command<S>>::empty(),
    {
        if self.channel.is_some() {
            Err(BleError::TxAlreadySet)
        } else {
            self.channel = Some(Channel { tx, handed: Ghost(Seq::empty()) });
            Ok(())
        }
    }
}

/// What a send reports, given whether the channel refused the command.
pub fn send_outcome<S>(refused: Option<Command<S>>) -> (outcome: Result<(), BleError>)
    ensures
        refused is None ==> outcome is Ok,
        refused is Some ==> outcome == Err::<(), BleError>(BleError::ChannelClosed),
{
    match refused {
        None => Ok(()),
        Some(_) => Err(BleError::ChannelClosed),
    }
}

/// What every request promises about handing `command` to the message loop:
/// before the channel is installed it is refused with `TxNotInitialized` and
/// nothing changes; afterwards either the channel accepts it and it is queued
/// behind every command accepted before, or the loop has gone away, which is
/// reported as `ChannelClosed` and queues nothing.
pub open spec fn hands_over<S>(
    before: CommandSender<S>,
    after: CommandSender<S>,
    command: Command<S>,
    outcome: Result<(), BleError>,
) -> bool {
    &&& !before.initialized() ==> outcome == Err::<(), BleError>(BleError::TxNotInitialized) && after == before
    &&& before.initialized() ==> after.initialized()
    &&& before.initialized() && outcome is Ok ==> after.handed() == before.handed().push(command)
    &&& before.initialized() && outcome is Err ==> outcome == Err::<(), BleError>(BleError::ChannelClosed)
        && after.handed() == before.handed()
}

/// Hands `command` to the message loop.
pub fn send<S>(sender: &mut CommandSender<S>, command: Command<S>) -> (outcome: Result<(), BleError>)
    ensures
        hands_over(*old(sender), *final(sender), command, outcome),
{
    match &mut sender.channel {
        None => Err(BleError::TxNotInitialized),
        Some(channel) => send_outcome(channel_send(channel, command)),
    }
}

/// Asks the message loop to scan for devices whose advertised services match
/// `filter`, reporting what it finds on `sink`.
pub fn scan<S>(sender: &mut CommandSender<S>, sink: S, filter: Vec<String>) -> (outcome: Result<(), BleError>)
    ensures
        hands_over(*old(sender), *final(sender), Command::Scan { sink, filter }, outcome),
{
    send(sender, Command::Scan { sink, filter })
}

/// Asks the message loop to connect to the peripheral `id`. Whether `id` is
/// known is only looked at when the loop handles the request.
pub fn connect<S>(sender: &mut CommandSender<S>, id: String) -> (outcome: Result<(), BleError>)
    ensures
        hands_over(*old(sender), *final(sender), Command::Connect { id }, outcome),
{
    send(sender, Command::Connect { id })
}

/// Asks the message loop to disconnect from the peripheral `id`. Whether
/// `id` is known is only looked at when the loop handles the request.
pub fn disconnect<S>(sender: &mut CommandSender<S>, id: String) -> (outcome: Result<(), BleError>)
    ensures
        hands_over(*old(sender), *final(sender), Command::Disconnect { id }, outcome),
{
    send(sender, Command::Disconnect { id })
}

/// Asks the message loop to stop the ongoing scan.
pub fn stop_scan<S>(sender: &mut CommandSender<S>) -> (outcome: Result<(), BleError>)
    ensures
        hands_over(*old(sender), *final(sender), Command::StopScan, outcome),
{
    send(sender, Command::StopScan)
}

/// Requests are queued in the order they are made: two accepted requests in
/// a row leave the log with the first and then the second behind everything
/// accepted before them.
pub proof fn law_requests_queue_in_order<S>(
    s0: CommandSender<S>,
    s1: CommandSender<S>,
    s2: CommandSender<S>,
    first: Command<S>,
    second: Command<S>,
    o1: Result<(), BleError>,
    o2: Result<(), BleError>,
)
    requires
        hands_over(s0, s1, first, o1),
        hands_over(s1, s2, second, o2),
        o1 is Ok,
        o2 is Ok,
    ensures
        s2.handed() == s0.handed().push(first).push(second),
{
}

} // verus!
