use vstd::prelude::*;
use crate::messages::ReactionSummary;
use crate::messages::ReactionView;
use crate::messages::reaction_views;
use crate::text::str_eq;
use crate::util::contains_u64;
use crate::util::index_of_u64;

verus! {

/// A well-formed reaction bucket: the count equals the number of users, the
/// user and name lists run in parallel, the bucket is non-empty, and no user
/// appears twice.
pub open spec fn wf_reaction(r: ReactionView) -> bool {
    &&& r.count == r.users.len()
    &&& r.names.len() == r.users.len()
    &&& r.users.len() > 0
    &&& forall|i: int, j: int| 0 <= i < j < r.users.len() ==> r.users[i] != r.users[j]
}

/// A well-formed reaction list: every bucket well-formed, one bucket per
/// emoji.
pub open spec fn wf_reactions(rs: Seq<ReactionView>) -> bool {
    &&& forall|i: int| 0 <= i < rs.len() ==> wf_reaction(#[trigger] rs[i])
    &&& forall|i: int, j: int| 0 <= i < j < rs.len() ==> rs[i].emoji != rs[j].emoji
}

/// Whether the user already reacted with the emoji.
pub open spec fn user_reacted(rs: Seq<ReactionView>, emoji: Seq<char>, user: u64) -> bool {
    exists|i: int|
        0 <= i < rs.len() && rs[i].emoji == emoji && #[trigger] rs[i].users.contains(user)
}

/// A fresh bucket holding one reacting user.
pub open spec fn bucket_of_user(emoji: Seq<char>, user: u64, name: Seq<char>) -> ReactionView {
    ReactionView { emoji, count: 1, users: seq![user], names: seq![name] }
}

/// A bucket with one more reacting user appended.
pub open spec fn bucket_add(b: ReactionView, user: u64, name: Seq<char>) -> ReactionView {
    ReactionView {
        emoji: b.emoji,
        count: b.count + 1,
        users: b.users.push(user),
        names: b.names.push(name),
    }
}

/// The position of a user inside a bucket's user list; determined when the
/// list holds the user exactly once.
pub open spec fn idx_of(s: Seq<u64>, x: u64) -> int {
    choose|k: int| 0 <= k < s.len() && s[k] == x
}

/// A bucket with one reacting user taken out.
pub open spec fn bucket_remove(b: ReactionView, user: u64) -> ReactionView {
    let k = idx_of(b.users, user);
    ReactionView {
        emoji: b.emoji,
        count: (b.count - 1) as nat,
        users: b.users.remove(k),
        names: b.names.remove(k),
    }
}

/// Adding a reaction: the user joins the bucket of the emoji unless already
/// in it; a missing bucket is created at the end of the list.
pub open spec fn spec_add_reaction(
    rs: Seq<ReactionView>,
    user: u64,
    name: Seq<char>,
    emoji: Seq<char>,
) -> Seq<ReactionView>
    decreases rs.len(),
{
    if rs.len() == 0 {
        seq![bucket_of_user(emoji, user, name)]
    } else if rs[0].emoji == emoji {
        if rs[0].users.contains(user) {
            rs
        } else {
            seq![bucket_add(rs[0], user, name)] + rs.drop_first()
        }
    } else {
        seq![rs[0]] + spec_add_reaction(rs.drop_first(), user, name, emoji)
    }
}

/// Removing a reaction: the user leaves the bucket of the emoji; a bucket
/// left empty is dropped from the list.
pub open spec fn spec_remove_reaction(
    rs: Seq<ReactionView>,
    user: u64,
    emoji: Seq<char>,
) -> Seq<ReactionView>
    decreases rs.len(),
{
    if rs.len() == 0 {
        rs
    } else if rs[0].emoji == emoji {
        if rs[0].users.contains(user) {
            if rs[0].users.len() == 1 {
                rs.drop_first()
            } else {
                seq![bucket_remove(rs[0], user)] + rs.drop_first()
            }
        } else {
            rs
        }
    } else {
        seq![rs[0]] + spec_remove_reaction(rs.drop_first(), user, emoji)
    }
}

/// First-match decomposition: adding skips every bucket before the first
/// one keyed by the emoji.
proof fn lemma_add_at(rs: Seq<ReactionView>, i: int, user: u64, name: Seq<char>, emoji: Seq<char>)
    requires
        0 <= i <= rs.len(),
        forall|k: int| 0 <= k < i ==> rs[k].emoji != emoji,
    ensures
        spec_add_reaction(rs, user, name, emoji) == rs.take(i) + spec_add_reaction(
            rs.skip(i),
            user,
            name,
            emoji,
        ),
    decreases i,
{
    if i == 0 {
        assert(rs.skip(0) =~= rs);
        assert(rs.take(0) + spec_add_reaction(rs, user, name, emoji) =~= spec_add_reaction(
            rs,
            user,
            name,
            emoji,
        ));
    } else {
        let rest = rs.drop_first();
        lemma_add_at(rest, i - 1, user, name, emoji);
        assert(rest.skip(i - 1) =~= rs.skip(i));
        assert(spec_add_reaction(rs, user, name, emoji) == seq![rs[0]] + spec_add_reaction(
            rest,
            user,
            name,
            emoji,
        ));
        assert(seq![rs[0]] + (rest.take(i - 1) + spec_add_reaction(rs.skip(i), user, name, emoji))
            =~= rs.take(i) + spec_add_reaction(rs.skip(i), user, name, emoji));
    }
}

/// First-match decomposition for removal.
proof fn lemma_remove_at(rs: Seq<ReactionView>, i: int, user: u64, emoji: Seq<char>)
    requires
        0 <= i <= rs.len(),
        forall|k: int| 0 <= k < i ==> rs[k].emoji != emoji,
    ensures
        spec_remove_reaction(rs, user, emoji) == rs.take(i) + spec_remove_reaction(
            rs.skip(i),
            user,
            emoji,
        ),
    decreases i,
{
    if i == 0 {
        assert(rs.skip(0) =~= rs);
        assert(rs.take(0) + spec_remove_reaction(rs, user, emoji) =~= spec_remove_reaction(
            rs,
            user,
            emoji,
        ));
    } else {
        let rest = rs.drop_first();
        lemma_remove_at(rest, i - 1, user, emoji);
        assert(rest.skip(i - 1) =~= rs.skip(i));
        assert(spec_remove_reaction(rs, user, emoji) == seq![rs[0]] + spec_remove_reaction(
            rest,
            user,
            emoji,
        ));
        assert(seq![rs[0]] + (rest.take(i - 1) + spec_remove_reaction(rs.skip(i), user, emoji))
            =~= rs.take(i) + spec_remove_reaction(rs.skip(i), user, emoji));
    }
}

/// Adding a reaction keeps the list well-formed, and introduces no emoji
/// other than the one added.
pub proof fn lemma_add_preserves_wf(rs: Seq<ReactionView>, user: u64, name: Seq<char>, emoji: Seq<char>)
    requires
        wf_reactions(rs),
    ensures
        wf_reactions(spec_add_reaction(rs, user, name, emoji)),
        forall|j: int|
            0 <= j < spec_add_reaction(rs, user, name, emoji).len() ==> (#[trigger] spec_add_reaction(
                rs,
                user,
                name,
                emoji,
            )[j].emoji == emoji || exists|i: int|
                0 <= i < rs.len() && rs[i].emoji == spec_add_reaction(rs, user, name, emoji)[j].emoji),
    decreases rs.len(),
{
    let r = spec_add_reaction(rs, user, name, emoji);
    if rs.len() == 0 {
    } else if rs[0].emoji == emoji {
        if rs[0].users.contains(user) {
        } else {
            let b = bucket_add(rs[0], user, name);
            assert(wf_reaction(b));
            assert forall|j: int| 0 <= j < r.len() implies wf_reaction(#[trigger] r[j]) by {
                if j > 0 {
                    assert(r[j] == rs[j]);
                }
            }
            assert forall|j: int|
                0 <= j < r.len() implies (#[trigger] r[j].emoji == emoji || exists|i: int|
                    0 <= i < rs.len() && rs[i].emoji == r[j].emoji) by {
                if j > 0 {
                    assert(rs[j].emoji == r[j].emoji);
                }
            }
        }
    } else {
        let rest = rs.drop_first();
        assert(wf_reactions(rest)) by {
            assert(forall|i: int| 0 <= i < rest.len() ==> rest[i] == rs[i + 1]);
        }
        lemma_add_preserves_wf(rest, user, name, emoji);
        let rr = spec_add_reaction(rest, user, name, emoji);
        assert(r == seq![rs[0]] + rr);
        assert forall|j: int| 0 <= j < r.len() implies wf_reaction(#[trigger] r[j]) by {
            if j > 0 {
                assert(r[j] == rr[j - 1]);
            }
        }
        assert forall|i: int, j: int| 0 <= i < j < r.len() implies r[i].emoji != r[j].emoji by {
            if i == 0 {
                assert(r[j] == rr[j - 1]);
                if rr[j - 1].emoji == emoji {
                } else {
                    let w = choose|w: int| 0 <= w < rest.len() && rest[w].emoji == rr[j - 1].emoji;
                    assert(rest[w] == rs[w + 1]);
                }
            } else {
                assert(r[i] == rr[i - 1] && r[j] == rr[j - 1]);
            }
        }
        assert forall|j: int|
            0 <= j < r.len() implies (#[trigger] r[j].emoji == emoji || exists|i: int|
                0 <= i < rs.len() && rs[i].emoji == r[j].emoji) by {
            if j == 0 {
                assert(rs[0].emoji == r[0].emoji);
            } else {
                assert(r[j] == rr[j - 1]);
                if rr[j - 1].emoji != emoji {
                    let w = choose|w: int| 0 <= w < rest.len() && rest[w].emoji == rr[j - 1].emoji;
                    assert(rs[w + 1].emoji == r[j].emoji);
                }
            }
        }
    }
}

/// Removing a reaction keeps the list well-formed, and introduces no new
/// emoji.
pub proof fn lemma_remove_preserves_wf(rs: Seq<ReactionView>, user: u64, emoji: Seq<char>)
    requires
        wf_reactions(rs),
    ensures
        wf_reactions(spec_remove_reaction(rs, user, emoji)),
        forall|j: int|
            0 <= j < spec_remove_reaction(rs, user, emoji).len() ==> exists|i: int|
                0 <= i < rs.len() && rs[i].emoji == #[trigger] spec_remove_reaction(
                    rs,
                    user,
                    emoji,
                )[j].emoji,
    decreases rs.len(),
{
    let r = spec_remove_reaction(rs, user, emoji);
    if rs.len() == 0 {
    } else if rs[0].emoji == emoji {
        if rs[0].users.contains(user) {
            if rs[0].users.len() == 1 {
                assert forall|j: int| 0 <= j < r.len() implies exists|i: int|
                    0 <= i < rs.len() && rs[i].emoji == #[trigger] r[j].emoji by {
                    assert(rs[j + 1].emoji == r[j].emoji);
                }
            } else {
                let b = bucket_remove(rs[0], user);
                let k = idx_of(rs[0].users, user);
                assert(0 <= k < rs[0].users.len() && rs[0].users[k] == user) by {
                    assert(exists|w: int| 0 <= w < rs[0].users.len() && rs[0].users[w] == user);
                }
                assert(wf_reaction(b)) by {
                    assert(forall|i: int|
                        0 <= i < b.users.len() ==> #[trigger] b.users[i] == if i < k {
                            rs[0].users[i]
                        } else {
                            rs[0].users[i + 1]
                        });
                }
                assert forall|j: int| 0 <= j < r.len() implies wf_reaction(#[trigger] r[j]) by {
                    if j > 0 {
                        assert(r[j] == rs[j]);
                    }
                }
                assert forall|j: int| 0 <= j < r.len() implies exists|i: int|
                    0 <= i < rs.len() && rs[i].emoji == #[trigger] r[j].emoji by {
                    if j == 0 {
                        assert(rs[0].emoji == r[0].emoji);
                    } else {
                        assert(rs[j].emoji == r[j].emoji);
                    }
                }
            }
        }
    } else {
        let rest = rs.drop_first();
        assert(wf_reactions(rest)) by {
            assert(forall|i: int| 0 <= i < rest.len() ==> rest[i] == rs[i + 1]);
        }
        lemma_remove_preserves_wf(rest, user, emoji);
        let rr = spec_remove_reaction(rest, user, emoji);
        assert(r == seq![rs[0]] + rr);
        assert forall|j: int| 0 <= j < r.len() implies wf_reaction(#[trigger] r[j]) by {
            if j > 0 {
                assert(r[j] == rr[j - 1]);
            }
        }
        assert forall|i: int, j: int| 0 <= i < j < r.len() implies r[i].emoji != r[j].emoji by {
            if i == 0 {
                assert(r[j] == rr[j - 1]);
                let w = choose|w: int| 0 <= w < rest.len() && rest[w].emoji == rr[j - 1].emoji;
                assert(rest[w] == rs[w + 1]);
            } else {
                assert(r[i] == rr[i - 1] && r[j] == rr[j - 1]);
            }
        }
        assert forall|j: int| 0 <= j < r.len() implies exists|i: int|
            0 <= i < rs.len() && rs[i].emoji == #[trigger] r[j].emoji by {
            if j == 0 {
                assert(rs[0].emoji == r[0].emoji);
            } else {
                assert(r[j] == rr[j - 1]);
                let w = choose|w: int| 0 <= w < rest.len() && rest[w].emoji == rr[j - 1].emoji;
                assert(rs[w + 1].emoji == r[j].emoji);
            }
        }
    }
}

/// Adding a reaction and then removing it by the same user restores the
/// reaction list to its state before the addition.
pub proof fn lemma_reaction_round_trip(
    rs: Seq<ReactionView>,
    user: u64,
    name: Seq<char>,
    emoji: Seq<char>,
)
    requires
        wf_reactions(rs),
        !user_reacted(rs, emoji, user),
    ensures
        spec_remove_reaction(spec_add_reaction(rs, user, name, emoji), user, emoji) == rs,
    decreases rs.len(),
{
    let a = spec_add_reaction(rs, user, name, emoji);
    if rs.len() == 0 {
        let b = bucket_of_user(emoji, user, name);
        assert(a == seq![b]);
        assert(a[0].users.contains(user)) by {
            assert(a[0].users[0] == user);
        }
        assert(spec_remove_reaction(a, user, emoji) =~= rs);
    } else if rs[0].emoji == emoji {
        assert(!rs[0].users.contains(user)) by {
            if rs[0].users.contains(user) {
                assert(user_reacted(rs, emoji, user));
            }
        }
        let b = bucket_add(rs[0], user, name);
        assert(a == seq![b] + rs.drop_first());
        assert(a[0] == b);
        assert(b.users.contains(user)) by {
            assert(b.users[b.users.len() - 1] == user);
        }
        assert(b.users.len() == rs[0].users.len() + 1);
        assert(b.users.len() > 1);
        let k = idx_of(b.users, user);
        assert(0 <= k < b.users.len() && b.users[k] == user) by {
            assert(exists|w: int| 0 <= w < b.users.len() && b.users[w] == user);
        }
        assert(k == b.users.len() - 1) by {
            if k < b.users.len() - 1 {
                assert(rs[0].users[k] == user);
                assert(rs[0].users.contains(user));
            }
        }
        let c = bucket_remove(b, user);
        assert(c == rs[0]) by {
            assert(c.users =~= rs[0].users);
            assert(c.names =~= rs[0].names);
        }
        assert(spec_remove_reaction(a, user, emoji) == seq![c] + a.drop_first());
        assert(seq![c] + a.drop_first() =~= rs);
    } else {
        let rest = rs.drop_first();
        assert(wf_reactions(rest)) by {
            assert(forall|i: int| 0 <= i < rest.len() ==> rest[i] == rs[i + 1]);
        }
        assert(!user_reacted(rest, emoji, user)) by {
            if user_reacted(rest, emoji, user) {
                let w = choose|w: int|
                    0 <= w < rest.len() && rest[w].emoji == emoji && #[trigger] rest[w].users.contains(
                        user,
                    );
                assert(rs[w + 1].emoji == emoji && rs[w + 1].users.contains(user));
                assert(user_reacted(rs, emoji, user));
            }
        }
        lemma_reaction_round_trip(rest, user, name, emoji);
        let ar = spec_add_reaction(rest, user, name, emoji);
        assert(a == seq![rs[0]] + ar);
        assert(a[0] == rs[0]);
        assert(a.drop_first() =~= ar);
        assert(spec_remove_reaction(a, user, emoji) == seq![rs[0]] + spec_remove_reaction(
            ar,
            user,
            emoji,
        ));
        assert(seq![rs[0]] + rest =~= rs);
    }
}

/// Adding the same reaction twice changes nothing the second time: no
/// duplicate entry, no count increase.
pub proof fn lemma_reaction_add_idempotent(
    rs: Seq<ReactionView>,
    user: u64,
    name: Seq<char>,
    emoji: Seq<char>,
)
    ensures
        spec_add_reaction(spec_add_reaction(rs, user, name, emoji), user, name, emoji)
            == spec_add_reaction(rs, user, name, emoji),
    decreases rs.len(),
{
    let a = spec_add_reaction(rs, user, name, emoji);
    if rs.len() == 0 {
        assert(a[0].users.contains(user)) by {
            assert(a[0].users[0] == user);
        }
    } else if rs[0].emoji == emoji {
        if rs[0].users.contains(user) {
        } else {
            let b = bucket_add(rs[0], user, name);
            assert(a == seq![b] + rs.drop_first());
            assert(a[0] == b);
            assert(b.users.contains(user)) by {
                assert(b.users[b.users.len() - 1] == user);
            }
        }
    } else {
        let rest = rs.drop_first();
        lemma_reaction_add_idempotent(rest, user, name, emoji);
        let ar = spec_add_reaction(rest, user, name, emoji);
        assert(a == seq![rs[0]] + ar);
        assert(a[0] == rs[0]);
        assert(a.drop_first() =~= ar);
        assert(spec_add_reaction(a, user, name, emoji) == seq![rs[0]] + spec_add_reaction(
            ar,
            user,
            name,
            emoji,
        ));
        assert(seq![rs[0]] + ar =~= a);
    }
}

/// Appends the user to the emoji's bucket, creating the bucket if it is
/// missing; does nothing when the user already reacted with that emoji.
pub fn add_reaction_to_list(rs: &mut Vec<ReactionSummary>, user_id: u64, username: &str, emoji: &str)
    requires
        wf_reactions(reaction_views(old(rs)@)),
    ensures
        reaction_views(final(rs)@) == spec_add_reaction(
            reaction_views(old(rs)@),
            user_id,
            username@,
            emoji@,
        ),
{
    let ghost orig = reaction_views(old(rs)@);
    let mut i: usize = 0;
    while i < rs.len()
        invariant
            rs@ == old(rs)@,
            i <= rs@.len(),
            orig == reaction_views(rs@),
            wf_reactions(orig),
            forall|k: int| 0 <= k < i ==> orig[k].emoji != emoji@,
        decreases rs@.len() - i,
    {
        if str_eq(rs[i].emoji.as_str(), emoji) {
            proof {
                lemma_add_at(orig, i as int, user_id, username@, emoji@);
                assert(orig.skip(i as int)[0] == orig[i as int]);
            }
            if contains_u64(&rs[i].user_ids, user_id) {
                proof {
                    assert(orig[i as int].users.contains(user_id));
                    assert(spec_add_reaction(orig.skip(i as int), user_id, username@, emoji@)
                        == orig.skip(i as int));
                    assert(orig.take(i as int) + orig.skip(i as int) =~= orig);
                }
                return;
            }
            let ghost pre = rs@;
            let mut b = rs.remove(i);
            b.user_ids.push(user_id);
            b.usernames.push(username.to_owned());
            b.count = b.user_ids.len();
            rs.insert(i, b);
            proof {
                assert(rs@ =~= pre.update(i as int, rs@[i as int]));
                assert(rs@[i as int]@ == bucket_add(orig[i as int], user_id, username@)) by {
                    assert(rs@[i as int].usernames@.map_values(|s: String| s@) =~= pre[i as int].usernames@.map_values(
                        |s: String| s@,
                    ).push(username@));
                }
                assert(spec_add_reaction(orig.skip(i as int), user_id, username@, emoji@)
                    == seq![bucket_add(orig[i as int], user_id, username@)] + orig.skip(
                    i as int,
                ).drop_first());
                assert(reaction_views(rs@) =~= orig.take(i as int) + (seq![
                    bucket_add(orig[i as int], user_id, username@),
                ] + orig.skip(i as int).drop_first())) by {
                    assert(forall|k: int|
                        0 <= k < rs@.len() && k != i ==> rs@[k] == #[trigger] pre[k]);
                    assert(forall|k: int|
                        0 <= k < orig.len() && k > i ==> orig.skip(i as int).drop_first()[k - i - 1]
                            == #[trigger] orig[k]);
                }
            }
            return;
        }
        i = i + 1;
    }
    proof {
        lemma_add_at(orig, orig.len() as int, user_id, username@, emoji@);
        assert(orig.skip(orig.len() as int) =~= Seq::<ReactionView>::empty());
    }
    let b = ReactionSummary {
        emoji: emoji.to_owned(),
        count: 1,
        user_ids: vec![user_id],
        usernames: vec![username.to_owned()],
    };
    let ghost pre = rs@;
    rs.push(b);
    proof {
        assert(b@ == bucket_of_user(emoji@, user_id, username@)) by {
            assert(b.usernames@.map_values(|s: String| s@) =~= seq![username@]);
            assert(b.user_ids@ =~= seq![user_id]);
        }
        crate::messages::lemma_reaction_views_push(pre, b);
        assert(orig.take(orig.len() as int) =~= orig);
        assert(reaction_views(rs@) =~= orig + seq![bucket_of_user(emoji@, user_id, username@)]);
    }
}

/// Takes the user out of the emoji's bucket, dropping the bucket once it is
/// empty; does nothing when no such reaction exists.
pub fn remove_reaction_from_list(rs: &mut Vec<ReactionSummary>, user_id: u64, emoji: &str)
    requires
        wf_reactions(reaction_views(old(rs)@)),
    ensures
        reaction_views(final(rs)@) == spec_remove_reaction(
            reaction_views(old(rs)@),
            user_id,
            emoji@,
        ),
{
    let ghost orig = reaction_views(old(rs)@);
    let mut i: usize = 0;
    while i < rs.len()
        invariant
            rs@ == old(rs)@,
            i <= rs@.len(),
            orig == reaction_views(rs@),
            wf_reactions(orig),
            forall|k: int| 0 <= k < i ==> orig[k].emoji != emoji@,
        decreases rs@.len() - i,
    {
        if str_eq(rs[i].emoji.as_str(), emoji) {
            proof {
                lemma_remove_at(orig, i as int, user_id, emoji@);
                assert(orig.skip(i as int)[0] == orig[i as int]);
            }
            match index_of_u64(&rs[i].user_ids, user_id) {
                None => {
                    proof {
                        assert(!orig[i as int].users.contains(user_id));
                        assert(spec_remove_reaction(orig.skip(i as int), user_id, emoji@)
                            == orig.skip(i as int));
                        assert(orig.take(i as int) + orig.skip(i as int) =~= orig);
                    }
                    return;
                },
                Some(k) => {
                    proof {
                        assert(orig[i as int].users.contains(user_id)) by {
                            assert(orig[i as int].users[k as int] == user_id);
                        }
                        assert(idx_of(orig[i as int].users, user_id) == k as int) by {
                            let w = idx_of(orig[i as int].users, user_id);
                            assert(0 <= w < orig[i as int].users.len()
                                && orig[i as int].users[w] == user_id) by {
                                assert(exists|j: int|
                                    0 <= j < orig[i as int].users.len() && orig[i as int].users[j]
                                        == user_id);
                            }
                            if w != k as int {
                                assert(wf_reaction(orig[i as int]));
                            }
                        }
                    }
                    let ghost pre = rs@;
                    let mut b = rs.remove(i);
                    b.user_ids.remove(k);
                    b.usernames.remove(k);
                    b.count = b.user_ids.len();
                    proof {
                        assert(b@ == bucket_remove(orig[i as int], user_id)) by {
                            assert(b.usernames@.map_values(|s: String| s@) =~= pre[i as int].usernames@.map_values(
                                |s: String| s@,
                            ).remove(k as int));
                        }
                    }
                    if b.user_ids.len() == 0 {
                        proof {
                            assert(orig[i as int].users.len() == 1);
                            assert(spec_remove_reaction(orig.skip(i as int), user_id, emoji@)
                                == orig.skip(i as int).drop_first());
                            assert(reaction_views(rs@) =~= orig.take(i as int) + orig.skip(
                                i as int,
                            ).drop_first()) by {
                                assert(forall|w: int|
                                    0 <= w < rs@.len() ==> rs@[w] == #[trigger] pre.remove(
                                        i as int,
                                    )[w]);
                            }
                        }
                    } else {
                        proof {
                            assert(orig[i as int].users.len() > 1);
                        }
                        rs.insert(i, b);
                        proof {
                            assert(rs@ =~= pre.update(i as int, rs@[i as int]));
                            assert(spec_remove_reaction(orig.skip(i as int), user_id, emoji@)
                                == seq![bucket_remove(orig[i as int], user_id)] + orig.skip(
                                i as int,
                            ).drop_first());
                            assert(reaction_views(rs@) =~= orig.take(i as int) + (seq![
                                bucket_remove(orig[i as int], user_id),
                            ] + orig.skip(i as int).drop_first())) by {
                                assert(forall|w: int|
                                    0 <= w < rs@.len() && w != i ==> rs@[w] == #[trigger] pre[w]);
                                assert(forall|w: int|
                                    0 <= w < orig.len() && w > i ==> orig.skip(
                                        i as int,
                                    ).drop_first()[w - i - 1] == #[trigger] orig[w]);
                            }
                        }
                    }
                    return;
                },
            }
        }
        i = i + 1;
    }
    proof {
        lemma_remove_at(orig, orig.len() as int, user_id, emoji@);
        assert(orig.skip(orig.len() as int) =~= Seq::<ReactionView>::empty());
        assert(orig.take(orig.len() as int) + spec_remove_reaction(
            orig.skip(orig.len() as int),
            user_id,
            emoji@,
        ) =~= orig);
    }
}

} // verus!
