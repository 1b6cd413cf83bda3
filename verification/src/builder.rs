//! The flags of a group, chosen step by step.
use vstd::prelude::*;

use crate::consts::{
    FAN_CLASS_CONTENT, FAN_CLASS_NOTIF, FAN_CLASS_PRE_CONTENT, FAN_CLOEXEC, FAN_ENABLE_AUDIT,
    FAN_NONBLOCK, FAN_REPORT_DIR_FID, FAN_REPORT_FID, FAN_REPORT_NAME, FAN_REPORT_PIDFD,
    FAN_REPORT_TARGET_FID, FAN_REPORT_TID, FAN_UNLIMITED_MARKS, FAN_UNLIMITED_QUEUE,
};
use crate::error::FanotifyError;
use crate::group::Fanotify;
use crate::sys::init_outcome;

verus! {

/// The bits that select the notification class.
pub const CLASS_MASK: u32 = 0x0C;

/// The arguments of `fanotify_init`, chosen step by step.
///
/// Nothing is judged here: whether a combination is legal is the kernel's
/// answer.
#[derive(Debug, Clone, Copy, PartialEq, Eq, Structural)]
pub struct FanotifyBuilder {
    /// The `FAN_*` init flags.
    pub flags: u32,
    /// The `open(2)` flags of the descriptors in fd-based events.
    pub event_f_flags: u32,
}

/// `flags` with its class bits replaced by those of `class`.
pub open spec fn with_class(flags: u32, class: u32) -> u32 {
    (flags & !CLASS_MASK) | class
}

/// Whether `class` is one of the notification classes.
pub open spec fn is_class(class: u32) -> bool {
    class == FAN_CLASS_NOTIF || class == FAN_CLASS_CONTENT || class == FAN_CLASS_PRE_CONTENT
}

impl FanotifyBuilder {
    /// Set close-on-exec (on by default).
    pub fn cloexec(self) -> (r: Self)
        ensures
            r.flags == self.flags | FAN_CLOEXEC,
            r.event_f_flags == self.event_f_flags,
    {
        FanotifyBuilder { flags: self.flags | FAN_CLOEXEC, event_f_flags: self.event_f_flags }
    }

    /// Make the group's descriptor non-blocking.
    pub fn nonblock(self) -> (r: Self)
        ensures
            r.flags == self.flags | FAN_NONBLOCK,
            r.event_f_flags == self.event_f_flags,
    {
        FanotifyBuilder { flags: self.flags | FAN_NONBLOCK, event_f_flags: self.event_f_flags }
    }

    /// Notification class: after-the-fact events (the default).
    pub fn class_notif(self) -> (r: Self)
        ensures
            r.flags == with_class(self.flags, FAN_CLASS_NOTIF),
            r.event_f_flags == self.event_f_flags,
    {
        FanotifyBuilder {
            flags: (self.flags & !CLASS_MASK) | FAN_CLASS_NOTIF,
            event_f_flags: self.event_f_flags,
        }
    }

    /// Content class: permission events on final content.
    pub fn class_content(self) -> (r: Self)
        ensures
            r.flags == with_class(self.flags, FAN_CLASS_CONTENT),
            r.event_f_flags == self.event_f_flags,
    {
        FanotifyBuilder {
            flags: (self.flags & !CLASS_MASK) | FAN_CLASS_CONTENT,
            event_f_flags: self.event_f_flags,
        }
    }

    /// Pre-content class: permission events before the content is final.
    pub fn class_pre_content(self) -> (r: Self)
        ensures
            r.flags == with_class(self.flags, FAN_CLASS_PRE_CONTENT),
            r.event_f_flags == self.event_f_flags,
    {
        FanotifyBuilder {
            flags: (self.flags & !CLASS_MASK) | FAN_CLASS_PRE_CONTENT,
            event_f_flags: self.event_f_flags,
        }
    }

    /// Report file handles instead of descriptors.
    pub fn report_fid(self) -> (r: Self)
        ensures
            r.flags == self.flags | FAN_REPORT_FID,
            r.event_f_flags == self.event_f_flags,
    {
        FanotifyBuilder { flags: self.flags | FAN_REPORT_FID, event_f_flags: self.event_f_flags }
    }

    /// Report parent directory handles.
    pub fn report_dir_fid(self) -> (r: Self)
        ensures
            r.flags == self.flags | FAN_REPORT_DIR_FID,
            r.event_f_flags == self.event_f_flags,
    {
        FanotifyBuilder { flags: self.flags | FAN_REPORT_DIR_FID, event_f_flags: self.event_f_flags }
    }

    /// Report entry names in parent directory events.
    pub fn report_name(self) -> (r: Self)
        ensures
            r.flags == self.flags | FAN_REPORT_NAME,
            r.event_f_flags == self.event_f_flags,
    {
        FanotifyBuilder { flags: self.flags | FAN_REPORT_NAME, event_f_flags: self.event_f_flags }
    }

    /// Report a thread id instead of a process id.
    pub fn report_tid(self) -> (r: Self)
        ensures
            r.flags == self.flags | FAN_REPORT_TID,
            r.event_f_flags == self.event_f_flags,
    {
        FanotifyBuilder { flags: self.flags | FAN_REPORT_TID, event_f_flags: self.event_f_flags }
    }

    /// Remove the limit on the event queue (needs `CAP_SYS_ADMIN`).
    pub fn unlimited_queue(self) -> (r: Self)
        ensures
            r.flags == self.flags | FAN_UNLIMITED_QUEUE,
            r.event_f_flags == self.event_f_flags,
    {
        FanotifyBuilder { flags: self.flags | FAN_UNLIMITED_QUEUE, event_f_flags: self.event_f_flags }
    }

    /// Remove the limit on the number of marks (needs `CAP_SYS_ADMIN`).
    pub fn unlimited_marks(self) -> (r: Self)
        ensures
            r.flags == self.flags | FAN_UNLIMITED_MARKS,
            r.event_f_flags == self.event_f_flags,
    {
        FanotifyBuilder { flags: self.flags | FAN_UNLIMITED_MARKS, event_f_flags: self.event_f_flags }
    }

    /// Set the `open(2)` flags of the descriptors in fd-based events.
    ///
    /// A FID group opens nothing, so there it is typically 0.
    pub fn event_flags(self, flags: u32) -> (r: Self)
        ensures
            r.flags == self.flags,
            r.event_f_flags == flags,
    {
        FanotifyBuilder { flags: self.flags, event_f_flags: flags }
    }

    /// Enable audit logging for permission events.
    pub fn enable_audit(self) -> (r: Self)
        ensures
            r.flags == self.flags | FAN_ENABLE_AUDIT,
            r.event_f_flags == self.event_f_flags,
    {
        FanotifyBuilder { flags: self.flags | FAN_ENABLE_AUDIT, event_f_flags: self.event_f_flags }
    }

    /// Report a pidfd for the process behind an event.
    pub fn report_pidfd(self) -> (r: Self)
        ensures
            r.flags == self.flags | FAN_REPORT_PIDFD,
            r.event_f_flags == self.event_f_flags,
    {
        FanotifyBuilder { flags: self.flags | FAN_REPORT_PIDFD, event_f_flags: self.event_f_flags }
    }

    /// Report the handle of a directory entry's target.
    ///
    /// Requires the parent handle, the name and `FAN_REPORT_FID` as well.
    pub fn report_target_fid(self) -> (r: Self)
        ensures
            r.flags == self.flags | FAN_REPORT_TARGET_FID,
            r.event_f_flags == self.event_f_flags,
    {
        FanotifyBuilder { flags: self.flags | FAN_REPORT_TARGET_FID, event_f_flags: self.event_f_flags }
    }

    /// Add arbitrary flags.
    pub fn raw_flags(self, flags: u32) -> (r: Self)
        ensures
            r.flags == self.flags | flags,
            r.event_f_flags == self.event_f_flags,
    {
        FanotifyBuilder { flags: self.flags | flags, event_f_flags: self.event_f_flags }
    }
}

impl FanotifyBuilder {
    /// Create the group: `call` performs one `fanotify_init`.
    pub fn init<F: Fn(u32, u32) -> Result<i32, i32>>(self, call: &F) -> (r: Result<
        Fanotify,
        FanotifyError,
    >)
        requires
            call.requires((self.flags, self.event_f_flags)),
        ensures
            exists|reply: Result<i32, i32>|
                {
                    &&& #[trigger] call.ensures((self.flags, self.event_f_flags), reply)
                    &&& match init_outcome(reply) {
                        Ok(fd) => r matches Ok(group) && group.descriptor() == fd,
                        Err(error) => r == Err::<Fanotify, FanotifyError>(error),
                    }
                },
    {
        Fanotify::init(self.flags, self.event_f_flags, call)
    }
}

impl Default for FanotifyBuilder {
    /// The notification class and close-on-exec, with no event flags.
    fn default() -> (r: Self)
        ensures
            r.flags == FAN_CLASS_NOTIF | FAN_CLOEXEC,
            r.event_f_flags == 0,
    {
        FanotifyBuilder { flags: FAN_CLASS_NOTIF | FAN_CLOEXEC, event_f_flags: 0 }
    }
}

/// Choosing a class selects that class and no other, whatever was chosen before,
/// and touches no other flag.
pub proof fn a_group_has_one_class(flags: u32, before: u32, class: u32)
    requires
        is_class(before),
        is_class(class),
    ensures
        with_class(flags, class) & CLASS_MASK == class,
        with_class(flags, class) & !CLASS_MASK == flags & !CLASS_MASK,
        with_class(with_class(flags, before), class) == with_class(flags, class),
{
    assert(((flags & !0x0Cu32) | class) & 0x0Cu32 == class && ((flags & !0x0Cu32) | class)
        & !0x0Cu32 == flags & !0x0Cu32 && ((((flags & !0x0Cu32) | before) & !0x0Cu32) | class) == ((
    flags & !0x0Cu32) | class)) by (bit_vector)
        requires
            class == 0 || class == 4 || class == 8,
            before == 0 || before == 4 || before == 8,
    ;
}

/// Adding a flag removes none, and adding it again changes nothing.
pub proof fn adding_flags_removes_none(flags: u32, added: u32)
    ensures
        (flags | added) & flags == flags,
        (flags | added) & added == added,
        (flags | added) | added == flags | added,
{
    assert((flags | added) & flags == flags && (flags | added) & added == added && (flags | added)
        | added == flags | added) by (bit_vector);
}

/// Every step of a builder adds its own flag, and takes none away; the class is
/// replaced and not added to.  The flags of event descriptors change at their own
/// step alone.
pub proof fn every_step_adds_its_own_flag(
    builder: FanotifyBuilder,
    cloexec: FanotifyBuilder,
    nonblock: FanotifyBuilder,
    queue: FanotifyBuilder,
    marks: FanotifyBuilder,
    audit: FanotifyBuilder,
)
    requires
        call_ensures(FanotifyBuilder::cloexec, (builder,), cloexec),
        call_ensures(FanotifyBuilder::nonblock, (builder,), nonblock),
        call_ensures(FanotifyBuilder::unlimited_queue, (builder,), queue),
        call_ensures(FanotifyBuilder::unlimited_marks, (builder,), marks),
        call_ensures(FanotifyBuilder::enable_audit, (builder,), audit),
    ensures
        adds_bit(builder, cloexec, 0x01),
        adds_bit(builder, nonblock, 0x02),
        adds_bit(builder, queue, 0x10),
        adds_bit(builder, marks, 0x20),
        adds_bit(builder, audit, 0x40),
{
    one_bit_is_added(builder, cloexec, 0x01);
    one_bit_is_added(builder, nonblock, 0x02);
    one_bit_is_added(builder, queue, 0x10);
    one_bit_is_added(builder, marks, 0x20);
    one_bit_is_added(builder, audit, 0x40);
}

/// The same of the steps that choose what events report.
pub proof fn every_report_adds_its_own_flag(
    builder: FanotifyBuilder,
    pidfd: FanotifyBuilder,
    tid: FanotifyBuilder,
    fid: FanotifyBuilder,
    dir_fid: FanotifyBuilder,
    name: FanotifyBuilder,
    target: FanotifyBuilder,
)
    requires
        call_ensures(FanotifyBuilder::report_pidfd, (builder,), pidfd),
        call_ensures(FanotifyBuilder::report_tid, (builder,), tid),
        call_ensures(FanotifyBuilder::report_fid, (builder,), fid),
        call_ensures(FanotifyBuilder::report_dir_fid, (builder,), dir_fid),
        call_ensures(FanotifyBuilder::report_name, (builder,), name),
        call_ensures(FanotifyBuilder::report_target_fid, (builder,), target),
    ensures
        adds_bit(builder, pidfd, 0x80),
        adds_bit(builder, tid, 0x100),
        adds_bit(builder, fid, 0x200),
        adds_bit(builder, dir_fid, 0x400),
        adds_bit(builder, name, 0x800),
        adds_bit(builder, target, 0x1000),
{
    one_bit_is_added(builder, pidfd, 0x80);
    one_bit_is_added(builder, tid, 0x100);
    one_bit_is_added(builder, fid, 0x200);
    one_bit_is_added(builder, dir_fid, 0x400);
    one_bit_is_added(builder, name, 0x800);
    one_bit_is_added(builder, target, 0x1000);
}

/// Raw flags are added as they are, and the flags of event descriptors are set as
/// they are.
pub proof fn raw_flags_are_not_changed(
    builder: FanotifyBuilder,
    flags: u32,
    raw: FanotifyBuilder,
    event: FanotifyBuilder,
)
    requires
        call_ensures(FanotifyBuilder::raw_flags, (builder, flags), raw),
        call_ensures(FanotifyBuilder::event_flags, (builder, flags), event),
    ensures
        adds_bit(builder, raw, flags),
        event.event_f_flags == flags,
        event.flags == builder.flags,
{
    one_bit_is_added(builder, raw, flags);
}

/// A class takes the place of the class that was there: bits 2 and 3 hold it, and
/// every other bit stays.
pub proof fn a_class_takes_the_place_of_another(
    builder: FanotifyBuilder,
    notif: FanotifyBuilder,
    content: FanotifyBuilder,
    pre_content: FanotifyBuilder,
)
    requires
        call_ensures(FanotifyBuilder::class_notif, (builder,), notif),
        call_ensures(FanotifyBuilder::class_content, (builder,), content),
        call_ensures(FanotifyBuilder::class_pre_content, (builder,), pre_content),
    ensures
        notif.flags & 0x0c == 0,
        content.flags & 0x0c == 0x04,
        pre_content.flags & 0x0c == 0x08,
        notif.flags & !0x0cu32 == builder.flags & !0x0cu32,
        content.flags & !0x0cu32 == builder.flags & !0x0cu32,
        pre_content.flags & !0x0cu32 == builder.flags & !0x0cu32,
        notif.event_f_flags == builder.event_f_flags,
        content.event_f_flags == builder.event_f_flags,
        pre_content.event_f_flags == builder.event_f_flags,
{
    a_group_has_one_class(builder.flags, 0, 0);
    a_group_has_one_class(builder.flags, 0, 4);
    a_group_has_one_class(builder.flags, 0, 8);
}

/// Whether one builder is another with these bits set, and differs in nothing else.
pub open spec fn adds_bit(before: FanotifyBuilder, after: FanotifyBuilder, bits: u32) -> bool {
    &&& after.flags & bits == bits
    &&& after.flags & !bits == before.flags & !bits
    &&& after.event_f_flags == before.event_f_flags
}

/// Setting bits sets those and no other.
proof fn one_bit_is_added(before: FanotifyBuilder, after: FanotifyBuilder, bits: u32)
    requires
        after.flags == before.flags | bits,
        after.event_f_flags == before.event_f_flags,
    ensures
        adds_bit(before, after, bits),
{
    let flags = before.flags;
    assert((flags | bits) & bits == bits && (flags | bits) & !bits == flags & !bits) by (bit_vector);
}

/// A builder starts with the notification class and close-on-exec, and with no
/// flags for event descriptors.
pub proof fn a_builder_starts_with_two_choices(builder: FanotifyBuilder)
    requires
        call_ensures(FanotifyBuilder::default, (), builder),
    ensures
        builder.flags == 1,
        builder.event_f_flags == 0,
{
    assert(0u32 | 1u32 == 1u32) by (bit_vector);
}

} // verus!
