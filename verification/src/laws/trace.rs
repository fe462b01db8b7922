//! Properties of command sequences.
use crate::bus::Command;
use vstd::prelude::*;

verus! {

/// Whether a command sequence ends with another.
pub open spec fn ends_with(commands: Seq<Command>, end: Seq<Command>) -> bool {
    &&& commands.len() >= end.len()
    &&& commands.skip(commands.len() - end.len()) == end
}

/// A sequence with something in front ends as it did before.
pub proof fn lemma_ends_with_prefix(front: Seq<Command>, back: Seq<Command>, end: Seq<Command>)
    requires
        ends_with(back, end),
    ensures
        ends_with(front + back, end),
{
    let n = back.len() - end.len();
    assert((front + back).skip(front.len() + n) =~= back.skip(n));
}

/// Whether a command changes a register that other software shares.
pub open spec fn is_shared(command: Command) -> bool {
    command is HashOwners || command is HashInterruptEnable || command is CipherOwners
}

/// Follows the critical section through a command sequence: whether it is open at the
/// end, or `None` where it is opened twice, closed twice, or a shared register is
/// changed outside it.
pub open spec fn critical_after(open: Option<bool>, commands: Seq<Command>) -> Option<bool>
    decreases commands.len(),
{
    if commands.len() == 0 {
        open
    } else {
        let before = critical_after(open, commands.drop_last());
        let command = commands.last();
        if before is None {
            None
        } else if command is EnterCritical {
            if before->0 {
                None
            } else {
                Some(true)
            }
        } else if command is ExitCritical {
            if before->0 {
                Some(false)
            } else {
                None
            }
        } else if is_shared(command) && !before->0 {
            None
        } else {
            before
        }
    }
}

/// Following two sequences one after the other is following both at once.
pub proof fn lemma_critical_append(open: Option<bool>, a: Seq<Command>, b: Seq<Command>)
    ensures
        critical_after(open, a + b) == critical_after(critical_after(open, a), b),
    decreases b.len(),
{
    if b.len() == 0 {
        assert(a + b =~= a);
    } else {
        assert((a + b).drop_last() =~= a + b.drop_last());
        lemma_critical_append(open, a, b.drop_last());
    }
}

/// Commands that neither open nor close the critical section nor change a shared
/// register leave it as it is.
pub proof fn lemma_critical_plain(open: Option<bool>, commands: Seq<Command>)
    requires
        forall|i: int|
            0 <= i < commands.len() ==> !(#[trigger] commands[i] is EnterCritical)
                && !(commands[i] is ExitCritical) && !is_shared(commands[i]),
    ensures
        critical_after(open, commands) == open,
    decreases commands.len(),
{
    if commands.len() > 0 {
        lemma_critical_plain(open, commands.drop_last());
    }
}

/// The last command of a sequence that has a property, if any has.
pub open spec fn last_where(
    commands: Seq<Command>,
    property: spec_fn(Command) -> bool,
) -> Option<Command>
    decreases commands.len(),
{
    if commands.len() == 0 {
        None
    } else if property(commands.last()) {
        Some(commands.last())
    } else {
        last_where(commands.drop_last(), property)
    }
}

/// The last such command of two sequences is that of the second, or else of the first.
pub proof fn lemma_last_append(
    a: Seq<Command>,
    b: Seq<Command>,
    property: spec_fn(Command) -> bool,
)
    ensures
        last_where(a + b, property) == if last_where(b, property) is Some {
            last_where(b, property)
        } else {
            last_where(a, property)
        },
    decreases b.len(),
{
    if b.len() == 0 {
        assert(a + b =~= a);
    } else {
        assert((a + b).drop_last() =~= a + b.drop_last());
        lemma_last_append(a, b.drop_last(), property);
    }
}

/// A sequence without such a command has no last one.
pub proof fn lemma_last_none(commands: Seq<Command>, property: spec_fn(Command) -> bool)
    requires
        forall|i: int| 0 <= i < commands.len() ==> !property(#[trigger] commands[i]),
    ensures
        last_where(commands, property) is None,
    decreases commands.len(),
{
    if commands.len() > 0 {
        assert forall|i: int| 0 <= i < commands.drop_last().len() implies !property(
            #[trigger] commands.drop_last()[i],
        ) by {
            assert(commands.drop_last()[i] == commands[i]);
        }
        lemma_last_none(commands.drop_last(), property);
    }
}

/// What a device is like after commands, when `step` says what one command does to it.
pub open spec fn after<D, C>(
    step: spec_fn(D, C) -> D,
    device: D,
    commands: Seq<C>,
) -> D
    decreases commands.len(),
{
    if commands.len() == 0 {
        device
    } else {
        step(after(step, device, commands.drop_last()), commands.last())
    }
}

/// The first commands of a sequence, and then the next one.
pub proof fn lemma_after_next<D, C>(
    step: spec_fn(D, C) -> D,
    device: D,
    commands: Seq<C>,
    k: int,
)
    requires
        0 <= k < commands.len(),
    ensures
        after(step, device, commands.take(k + 1)) == step(
            after(step, device, commands.take(k)),
            commands[k],
        ),
        k == 0 ==> after(step, device, commands.take(k)) == device,
        k + 1 == commands.len() ==> after(step, device, commands) == after(
            step,
            device,
            commands.take(k + 1),
        ),
{
    assert(commands.take(k + 1).drop_last() =~= commands.take(k));
    assert(commands.take(commands.len() as int) =~= commands);
}

/// Up to four commands act one after the other.
pub proof fn lemma_after_few<D, C>(step: spec_fn(D, C) -> D, device: D, c: Seq<C>)
    ensures
        c.len() == 0 ==> after(step, device, c) == device,
        c.len() == 1 ==> after(step, device, c) == step(device, c[0]),
        c.len() == 2 ==> after(step, device, c) == step(step(device, c[0]), c[1]),
        c.len() == 3 ==> after(step, device, c) == step(step(step(device, c[0]), c[1]), c[2]),
        c.len() == 4 ==> after(step, device, c) == step(
            step(step(step(device, c[0]), c[1]), c[2]),
            c[3],
        ),
{
    if 0 < c.len() <= 4 {
        lemma_after_next(step, device, c, 0);
        if c.len() > 1 {
            lemma_after_next(step, device, c, 1);
        }
        if c.len() > 2 {
            lemma_after_next(step, device, c, 2);
        }
        if c.len() > 3 {
            lemma_after_next(step, device, c, 3);
        }
    }
}

/// Two sequences act one after the other.
pub proof fn lemma_after_both<D, C>(
    step: spec_fn(D, C) -> D,
    device: D,
    front: Seq<C>,
    back: Seq<C>,
)
    ensures
        after(step, device, front + back) == after(step, after(step, device, front), back),
    decreases back.len(),
{
    if back.len() == 0 {
        assert(front + back =~= front);
    } else {
        lemma_after_both(step, device, front, back.drop_last());
        assert((front + back).drop_last() =~= front + back.drop_last());
    }
}

/// A command acts after the ones before it.
pub proof fn lemma_after_push<D, C>(
    step: spec_fn(D, C) -> D,
    device: D,
    commands: Seq<C>,
    command: C,
)
    ensures
        after(step, device, commands.push(command)) == step(
            after(step, device, commands),
            command,
        ),
{
    assert(commands.push(command).drop_last() =~= commands);
}

} // verus!
