//! Which rules of an earlier process are removed, stated on the bytes of a dump.
use crate::bytes::ByteOrder;
use crate::error::ErrorView;
use crate::ip_key::IpKey;
use crate::netlink::cleanup::{cleanup_key, cleanup_targets, found_rule};
use crate::netlink::codec::{nlas, nlas_error, Item, Message};
use crate::netlink::dump_engine::dump_of;
use crate::netlink::rule::{raw_key, RuleContext};
use vstd::prelude::*;

verus! {

/// A rule whose body names another family, or a prefix that is no single host, is left alone,
/// whatever its attributes say; so is a body that is cut short.
pub proof fn only_host_rules_of_the_family_are_leftovers(
    order: ByteOrder,
    data: Seq<u8>,
    ctx: RuleContext,
    family: int,
)
    requires
        family == 2 || family == 10,
    ensures
        data.len() < 12 ==> cleanup_key(order, data, ctx, family) == Ok::<
            Option<IpKey>,
            ErrorView,
        >(None),
        data.len() >= 12 && data[0] != family ==> cleanup_key(order, data, ctx, family) == Ok::<
            Option<IpKey>,
            ErrorView,
        >(None),
        data.len() >= 12 && data[1] != (if family == 2 {
            32
        } else {
            128int
        }) ==> cleanup_key(order, data, ctx, family) == Ok::<Option<IpKey>, ErrorView>(None),
{
}

/// Whether a message of a rule dump names a rule to remove: `key` is its address.
pub open spec fn names_leftover(
    order: ByteOrder,
    m: Message,
    ctx: RuleContext,
    family: int,
    key: IpKey,
) -> bool {
    m.header.nlmsg_type == 32 && cleanup_key(order, m.data, ctx, family) == Ok::<
        Option<IpKey>,
        ErrorView,
    >(Some(key))
}

/// Of a dump that is read to its end without an error, exactly the rules named by its messages are
/// collected that were not collected before, each of them once, and those seen are remembered.
pub proof fn every_leftover_is_collected_once(
    order: ByteOrder,
    messages: Seq<Message>,
    ctx: RuleContext,
    family: int,
    seen: Set<IpKey>,
    key: IpKey,
)
    requires
        cleanup_targets(order, messages, ctx, family, seen).error is None,
    ensures
        ({
            let t = cleanup_targets(order, messages, ctx, family, seen);
            let named = exists|i: int|
                0 <= i < messages.len() && names_leftover(
                    order,
                    #[trigger] messages[i],
                    ctx,
                    family,
                    key,
                );
            &&& t.keys.contains(key) <==> named && !seen.contains(key)
            &&& t.seen.contains(key) <==> named || seen.contains(key)
            &&& t.keys.no_duplicates()
        }),
    decreases messages.len(),
{
    let t = cleanup_targets(order, messages, ctx, family, seen);
    if messages.len() > 0 {
        let fewer = messages.drop_last();
        let b = cleanup_targets(order, fewer, ctx, family, seen);
        every_leftover_is_collected_once(order, fewer, ctx, family, seen, key);
        let m = messages.last();
        assert forall|i: int| 0 <= i < fewer.len() implies fewer[i] == #[trigger] messages[i] by {}
        let n = messages.len() - 1;
        assert(messages[n] == m);
        let named = exists|i: int|
            0 <= i < messages.len() && names_leftover(
                order,
                #[trigger] messages[i],
                ctx,
                family,
                key,
            );
        let named_before = exists|i: int|
            0 <= i < fewer.len() && names_leftover(order, #[trigger] fewer[i], ctx, family, key);
        if named_before {
            let i = choose|i: int|
                0 <= i < fewer.len() && names_leftover(
                    order,
                    #[trigger] fewer[i],
                    ctx,
                    family,
                    key,
                );
            assert(names_leftover(order, messages[i], ctx, family, key));
        }
        if named && !names_leftover(order, m, ctx, family, key) {
            let i = choose|i: int|
                0 <= i < messages.len() && names_leftover(
                    order,
                    #[trigger] messages[i],
                    ctx,
                    family,
                    key,
                );
            assert(names_leftover(order, fewer[i], ctx, family, key));
        }
        assert(named <==> named_before || names_leftover(order, m, ctx, family, key));
        if m.header.nlmsg_type == 32 {
            if let Ok(Some(k)) = cleanup_key(order, m.data, ctx, family) {
                every_leftover_is_collected_once(order, fewer, ctx, family, seen, k);
                if !b.seen.contains(k) {
                    assert(t.keys == b.keys.push(k));
                    assert(t.keys.last() == k);
                    assert(t.keys.contains(key) <==> b.keys.contains(key) || key == k) by {
                        if b.keys.contains(key) {
                            let i = b.keys.index_of(key);
                            assert(t.keys[i] == key);
                        }
                        if key == k {
                            assert(t.keys[b.keys.len() as int] == key);
                        }
                        if t.keys.contains(key) && key != k {
                            let i = t.keys.index_of(key);
                            assert(b.keys[i] == key);
                        }
                    }
                }
            }
        }
    } else {
        assert(!t.keys.contains(key));
    }
}

/// A dump's answer is made up of the messages under its number that are neither its end nor an
/// error, in order; it is at its end if and only if a message says so; messages under another
/// number change nothing.
pub proof fn dump_holds_its_own_messages(
    order: ByteOrder,
    received: Seq<Item>,
    seq: u32,
    m: Message,
)
    requires
        dump_of(order, received, seq).error is None,
    ensures
        ({
            let before = dump_of(order, received, seq);
            let after = dump_of(order, received.push(Item::Message(m)), seq);
            &&& m.header.nlmsg_seq != seq ==> after == before
            &&& m.header.nlmsg_seq == seq && m.header.nlmsg_type == 3 ==> after.done
                && after.messages == before.messages && after.error is None
            &&& m.header.nlmsg_seq == seq && m.header.nlmsg_type != 2 && m.header.nlmsg_type != 3
                ==> after.messages == before.messages.push(m) && after.done == before.done
                && after.error is None
            &&& m.header.nlmsg_seq == seq && m.header.nlmsg_type == 2 && m.data.len() < 4
                ==> after.error is Some
            &&& m.header.nlmsg_seq == seq && m.header.nlmsg_type == 2 && m.data.len() >= 4 && (
            m.data[0] != 0 || m.data[1] != 0 || m.data[2] != 0 || m.data[3] != 0)
                ==> after.error is Some
            &&& m.header.nlmsg_seq == seq && m.header.nlmsg_type == 2 && m.data.len() >= 4
                && m.data[0] == 0 && m.data[1] == 0 && m.data[2] == 0 && m.data[3] == 0 ==> after
                == before
        }),
{
    let all = received.push(Item::Message(m));
    assert(all.drop_last() =~= received);
    assert(all.last() == Item::Message(m));
}

/// Nothing received is nothing dumped, and the dump is not at its end; once it has gone wrong it
/// stays so.
pub proof fn dump_starts_empty(order: ByteOrder, received: Seq<Item>, seq: u32, item: Item)
    ensures
        dump_of(order, Seq::empty(), seq).messages.len() == 0,
        !dump_of(order, Seq::empty(), seq).done,
        dump_of(order, Seq::empty(), seq).error is None,
        dump_of(order, received, seq).error is Some ==> dump_of(order, received.push(item), seq)
            == dump_of(order, received, seq),
        dump_of(order, received, seq).error is None ==> (item matches Item::Error(e) ==> dump_of(
            order,
            received.push(item),
            seq,
        ).error == Some(e)),
{
    let all = received.push(item);
    assert(all.drop_last() =~= received);
    assert(all.last() == item);
}

/// A rule with a destination whose attributes can be read is a leftover if and only if it has the
/// priority and the table of the daemon; without a destination it is none; and where its attributes
/// cannot be read, that is an error.
pub proof fn leftovers_have_priority_and_table(
    order: ByteOrder,
    data: Seq<u8>,
    ctx: RuleContext,
    family: int,
)
    requires
        family == 2 || family == 10,
        data.len() >= 12,
        data[0] == family,
        data[1] == (if family == 2 {
            32
        } else {
            128int
        }),
    ensures
        ({
            let attrs = nlas(order, data.skip(12));
            let found = found_rule(order, data[4], attrs);
            let broken = nlas_error(order, data.skip(12)) is Some || found.error is Some;
            let r = cleanup_key(order, data, ctx, family);
            &&& r is Err <==> broken
            &&& !broken && found.dst is None ==> r == Ok::<Option<IpKey>, ErrorView>(None)
            &&& !broken ==> (found.dst matches Some(dst) ==> (if found.pref == Some(ctx.pref)
                && found.table_id == ctx.table_id {
                r == Ok::<Option<IpKey>, ErrorView>(raw_key(family as u8, dst))
            } else {
                r == Ok::<Option<IpKey>, ErrorView>(None)
            }))
        }),
{
    assert(data.skip(12) =~= data.subrange(12, data.len() as int));
}

} // verus!
