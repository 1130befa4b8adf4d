//! The members of a group as they are shown: every member with the one who
//! added them, filtered by role and by the start of a name, in the order of
//! role and user name, in pages.
//!
//! Who may look is decided by the tier the viewer acts at: it must cover the
//! trust tier of the group.

use vstd::prelude::*;
use crate::clock::Timestamp;
use crate::error::{failed_with, PacksError};
use crate::model::{text_of, Membership, UserProfile};
use crate::paging::{next_after, page_bounds, page_of};
use crate::sequences::{
    lemma_filter_keeps_order, lemma_filter_map_step, lemma_take_all, lemma_take_step,
};
use crate::store::{key_of, role_id_at, Store};
use crate::types::{RoleType, TrustType};
use crate::user::lemma_user_rows;

verus! {

/// The order of texts: by the code points of their characters from the
/// left, a text before every text that it starts.
pub open spec fn text_less(a: Seq<char>, b: Seq<char>) -> bool
    decreases a.len(),
{
    if b.len() == 0 {
        false
    } else if a.len() == 0 {
        true
    } else if a[0] != b[0] {
        (a[0] as int) < (b[0] as int)
    } else {
        text_less(a.drop_first(), b.drop_first())
    }
}

/// Of two texts either one is before the other or they are the same text,
/// and never two of these at once.
pub proof fn lemma_text_order(a: Seq<char>, b: Seq<char>)
    ensures
        text_less(a, b) ==> !text_less(b, a) && a != b,
        !text_less(a, b) && !text_less(b, a) ==> a == b,
    decreases a.len(),
{
    if a.len() == 0 || b.len() == 0 {
        if a.len() == 0 && b.len() == 0 {
            assert(a =~= b);
        }
    } else if a[0] == b[0] {
        lemma_text_order(a.drop_first(), b.drop_first());
        if a.drop_first() == b.drop_first() {
            assert(a =~= seq![a[0]] + a.drop_first());
            assert(b =~= seq![b[0]] + b.drop_first());
        }
        if a == b {
            assert(a.drop_first() == b.drop_first());
        }
    } else {
        assert(a[0] as int != b[0] as int);
    }
}

/// The order of texts is transitive.
pub proof fn lemma_text_transitive(a: Seq<char>, b: Seq<char>, c: Seq<char>)
    requires
        text_less(a, b),
        text_less(b, c),
    ensures
        text_less(a, c),
    decreases a.len(),
{
    if a.len() > 0 && a[0] == b[0] && b[0] == c[0] {
        lemma_text_transitive(a.drop_first(), b.drop_first(), c.drop_first());
    }
}

/// Whether the text `a` comes before the text `b`.
pub fn text_before(a: &str, b: &str) -> (r: bool)
    ensures
        r == text_less(a@, b@),
{
    let n = a.unicode_len();
    let m = b.unicode_len();
    let mut i: usize = 0;
    assert(a@.skip(0) =~= a@ && b@.skip(0) =~= b@);
    while i < n && i < m
        invariant
            i <= n,
            i <= m,
            n == a@.len(),
            m == b@.len(),
            text_less(a@, b@) == text_less(a@.skip(i as int), b@.skip(i as int)),
        decreases n - i,
    {
        let x = a.get_char(i);
        let y = b.get_char(i);
        proof {
            assert(a@.skip(i as int)[0] == a@[i as int]);
            assert(b@.skip(i as int)[0] == b@[i as int]);
            assert(a@.skip(i as int).drop_first() =~= a@.skip(i + 1));
            assert(b@.skip(i as int).drop_first() =~= b@.skip(i + 1));
        }
        if x != y {
            return x < y;
        }
        i += 1;
    }
    i < m
}

/// The code point of a character, with the capital letters of the basic
/// Latin alphabet taken for their small letters.
pub open spec fn fold_case(c: char) -> int {
    if 'A' <= c && c <= 'Z' {
        (c as int) + 32
    } else {
        c as int
    }
}

/// The code point of a character without regard to case.
pub fn folded(c: char) -> (r: u32)
    ensures
        r == fold_case(c),
{
    if 'A' <= c && c <= 'Z' {
        let code: u32 = c as u32;
        code + 32
    } else {
        c as u32
    }
}

/// Whether `text` starts with `prefix`, without regard to the case of
/// basic Latin letters. Every text starts with the empty text.
pub open spec fn starts_with_folded(text: Seq<char>, prefix: Seq<char>) -> bool {
    prefix.len() <= text.len() && forall|i: int|
        0 <= i < prefix.len() ==> fold_case(#[trigger] text[i]) == fold_case(prefix[i])
}

/// Whether `text` starts with `prefix`, without regard to case.
pub fn starts_with(text: &str, prefix: &str) -> (r: bool)
    ensures
        r == starts_with_folded(text@, prefix@),
{
    let n = text.unicode_len();
    let m = prefix.unicode_len();
    if m > n {
        return false;
    }
    let mut i: usize = 0;
    while i < m
        invariant
            i <= m <= n,
            n == text@.len(),
            m == prefix@.len(),
            forall|j: int| 0 <= j < i ==> fold_case(#[trigger] text@[j]) == fold_case(prefix@[j]),
        decreases m - i,
    {
        if folded(text.get_char(i)) != folded(prefix.get_char(i)) {
            assert(fold_case(text@[i as int]) != fold_case(prefix@[i as int]));
            return false;
        }
        i += 1;
    }
    true
}

/// The full name of a user: first name, a space, last name.
pub open spec fn full_name(p: UserProfile) -> Seq<char> {
    p.first_name@ + " "@ + p.last_name@
}

/// Whether the full name, the first name, the last name, the user name or
/// the mail address of the profile starts with `query`, without regard to
/// case.
pub open spec fn matches_query(p: UserProfile, query: Seq<char>) -> bool {
    ||| starts_with_folded(full_name(p), query)
    ||| starts_with_folded(p.first_name@, query)
    ||| starts_with_folded(p.last_name@, query)
    ||| starts_with_folded(p.username@, query)
    ||| starts_with_folded(p.email@, query)
}

/// Whether a name or the mail address of the profile starts with `query`.
pub fn profile_matches(p: &UserProfile, query: &str) -> (r: bool)
    ensures
        r == matches_query(*p, query@),
{
    let mut full = p.first_name.clone();
    full.append(" ");
    full.append(p.last_name.as_str());
    starts_with(full.as_str(), query) || starts_with(p.first_name.as_str(), query) || starts_with(
        p.last_name.as_str(),
        query,
    ) || starts_with(p.username.as_str(), query) || starts_with(p.email.as_str(), query)
}

/// A member of a group as shown: the profile of the member, the role held,
/// since when and until when, and the profile of the one who added the
/// member.
#[derive(Debug, PartialEq, Eq)]
pub struct DisplayMemberAndHost {
    pub member: UserProfile,
    pub role: RoleType,
    pub since: Timestamp,
    pub expiration: Option<Timestamp>,
    pub host: UserProfile,
}

impl Clone for DisplayMemberAndHost {
    fn clone(&self) -> (r: DisplayMemberAndHost)
        ensures
            r == *self,
    {
        DisplayMemberAndHost {
            member: self.member.clone(),
            role: self.role,
            since: self.since,
            expiration: self.expiration,
            host: self.host.clone(),
        }
    }
}

impl DisplayMemberAndHost {
    /// Whether the member is of tier staff.
    pub fn is_staff(&self) -> (r: bool)
        ensures
            r == (self.member.trust == TrustType::Staff),
    {
        match self.member.trust {
            TrustType::Staff => true,
            _ => false,
        }
    }
}

/// One page of the members of a group.
#[derive(Debug, PartialEq, Eq)]
pub struct PaginatedDisplayMembersAndHost {
    pub members: Vec<DisplayMemberAndHost>,
    /// The offset of the page that follows; none after an empty page.
    pub next: Option<i64>,
}

/// The place of a role in a listing: admins first, members last.
pub open spec fn role_rank(typ: RoleType) -> int {
    match typ {
        RoleType::Admin => 0,
        RoleType::Curator => 1,
        RoleType::Member => 2,
    }
}

/// The place of a role in a listing.
pub fn rank_of(typ: RoleType) -> (r: u8)
    ensures
        r == role_rank(typ),
{
    match typ {
        RoleType::Admin => 0,
        RoleType::Curator => 1,
        RoleType::Member => 2,
    }
}

/// The order of a listing: by role, then by user name, then by UUID.
pub open spec fn row_before(x: DisplayMemberAndHost, y: DisplayMemberAndHost) -> bool {
    let by_name = text_less(x.member.username@, y.member.username@);
    let same_name = x.member.username@ == y.member.username@;
    ||| role_rank(x.role) < role_rank(y.role)
    ||| role_rank(x.role) == role_rank(y.role) && by_name
    ||| role_rank(x.role) == role_rank(y.role) && same_name && x.member.user_uuid
        < y.member.user_uuid
}

/// The order of a listing never puts two rows each before the other, and
/// it puts one of two rows of different users before the other.
pub proof fn lemma_row_order(x: DisplayMemberAndHost, y: DisplayMemberAndHost)
    ensures
        !(row_before(x, y) && row_before(y, x)),
        x.member.user_uuid != y.member.user_uuid ==> row_before(x, y) || row_before(y, x),
{
    lemma_text_order(x.member.username@, y.member.username@);
    lemma_text_order(y.member.username@, x.member.username@);
}

/// The order of a listing is transitive.
pub proof fn lemma_row_transitive(
    x: DisplayMemberAndHost,
    y: DisplayMemberAndHost,
    z: DisplayMemberAndHost,
)
    requires
        row_before(x, y),
        row_before(y, z),
    ensures
        row_before(x, z),
{
    let (a, b, c) = (x.member.username@, y.member.username@, z.member.username@);
    if role_rank(x.role) == role_rank(y.role) && role_rank(y.role) == role_rank(z.role) {
        lemma_text_order(a, b);
        lemma_text_order(b, c);
        if text_less(a, b) && text_less(b, c) {
            lemma_text_transitive(a, b, c);
        }
    }
}

/// Whether the row `x` comes before the row `y` in a listing.
pub fn row_precedes(x: &DisplayMemberAndHost, y: &DisplayMemberAndHost) -> (r: bool)
    ensures
        r == row_before(*x, *y),
{
    let rx = rank_of(x.role);
    let ry = rank_of(y.role);
    if rx != ry {
        return rx < ry;
    }
    if text_before(x.member.username.as_str(), y.member.username.as_str()) {
        return true;
    }
    proof {
        lemma_text_order(x.member.username@, y.member.username@);
    }
    if text_before(y.member.username.as_str(), x.member.username.as_str()) {
        return false;
    }
    x.member.user_uuid < y.member.user_uuid
}

/// Whether every row comes before the rows after it.
pub open spec fn in_order(rows: Seq<DisplayMemberAndHost>) -> bool {
    forall|i: int, j: int|
        #![trigger rows[i], rows[j]]
        0 <= i < j < rows.len() ==> row_before(rows[i], rows[j])
}

/// Whether `all` is the listing of the rows `found`: the same rows, each
/// once, in order.
pub open spec fn is_listing(all: Seq<DisplayMemberAndHost>, found: Seq<DisplayMemberAndHost>) -> bool {
    &&& in_order(all)
    &&& all.len() == found.len()
    &&& forall|y: DisplayMemberAndHost| #[trigger] all.contains(y) <==> found.contains(y)
}

/// Two listings of the same rows are the same listing: the order leaves no
/// choice.
pub proof fn lemma_listing_unique(a: Seq<DisplayMemberAndHost>, b: Seq<DisplayMemberAndHost>)
    requires
        in_order(a),
        in_order(b),
        a.len() == b.len(),
        forall|y: DisplayMemberAndHost| #[trigger] a.contains(y) <==> b.contains(y),
    ensures
        a == b,
    decreases a.len(),
{
    if a.len() == 0 {
        assert(a =~= b);
    } else {
        assert(a.contains(a[0]));
        assert(b.contains(b[0]));
        assert(b.contains(a[0]));
        assert(a.contains(b[0]));
        let k = choose|k: int| 0 <= k < b.len() && b[k] == a[0];
        let m = choose|m: int| 0 <= m < a.len() && a[m] == b[0];
        if k > 0 && m > 0 {
            assert(row_before(b[0], b[k]));
            assert(row_before(a[0], a[m]));
            lemma_row_order(a[0], b[0]);
        }
        assert(a[0] == b[0]);
        let a2 = a.drop_first();
        let b2 = b.drop_first();
        assert forall|y: DisplayMemberAndHost| #[trigger] a2.contains(y) <==> b2.contains(y) by {
            lemma_row_order(y, y);
            if a2.contains(y) {
                let i = choose|i: int| 0 <= i < a2.len() && a2[i] == y;
                assert(a[i + 1] == y);
                assert(row_before(a[0], a[i + 1]));
                assert(a.contains(y));
                assert(b.contains(y));
                let j = choose|j: int| 0 <= j < b.len() && b[j] == y;
                assert(j != 0);
                assert(b2[j - 1] == y);
            }
            if b2.contains(y) {
                let i = choose|i: int| 0 <= i < b2.len() && b2[i] == y;
                assert(b[i + 1] == y);
                assert(row_before(b[0], b[i + 1]));
                assert(b.contains(y));
                assert(a.contains(y));
                let j = choose|j: int| 0 <= j < a.len() && a[j] == y;
                assert(j != 0);
                assert(a2[j - 1] == y);
            }
        }
        assert forall|i: int, j: int| 0 <= i < j < a2.len() implies row_before(
            #[trigger] a2[i],
            #[trigger] a2[j],
        ) by {
            assert(a2[i] == a[i + 1] && a2[j] == a[j + 1]);
        }
        assert forall|i: int, j: int| 0 <= i < j < b2.len() implies row_before(
            #[trigger] b2[i],
            #[trigger] b2[j],
        ) by {
            assert(b2[i] == b[i + 1] && b2[j] == b[j + 1]);
        }
        lemma_listing_unique(a2, b2);
        assert(a =~= seq![a[0]] + a2);
        assert(b =~= seq![b[0]] + b2);
    }
}

/// Puts `x` into the rows `sorted` at its place in the order.
fn insert_in_order(sorted: &mut Vec<DisplayMemberAndHost>, x: DisplayMemberAndHost)
    requires
        in_order(old(sorted)@),
        forall|j: int|
            0 <= j < old(sorted)@.len() ==> (#[trigger] old(sorted)@[j]).member.user_uuid
                != x.member.user_uuid,
    ensures
        in_order(final(sorted)@),
        final(sorted)@.len() == old(sorted)@.len() + 1,
        forall|y: DisplayMemberAndHost|
            #[trigger] final(sorted)@.contains(y) <==> old(sorted)@.contains(y) || y == x,
{
    let ghost before = sorted@;
    let mut p: usize = 0;
    while p < sorted.len() && row_precedes(&sorted[p], &x)
        invariant
            p <= sorted.len(),
            sorted@ == before,
            forall|j: int| 0 <= j < p ==> row_before(#[trigger] before[j], x),
        decreases sorted.len() - p,
    {
        p += 1;
    }
    proof {
        let after = before.insert(p as int, x);
        assert forall|j: int| p <= j < before.len() implies row_before(x, #[trigger] before[j]) by {
            lemma_row_order(before[p as int], x);
            if j > p {
                assert(row_before(before[p as int], before[j]));
                lemma_row_transitive(x, before[p as int], before[j]);
            }
        }
        assert forall|i: int, j: int| 0 <= i < j < after.len() implies row_before(
            #[trigger] after[i],
            #[trigger] after[j],
        ) by {
            if j < p {
                assert(after[i] == before[i] && after[j] == before[j]);
            } else if j == p {
                assert(after[i] == before[i]);
            } else if i < p {
                assert(after[i] == before[i] && after[j] == before[j - 1]);
            } else if i == p {
                assert(after[j] == before[j - 1]);
            } else {
                assert(after[i] == before[i - 1] && after[j] == before[j - 1]);
            }
        }
        assert forall|y: DisplayMemberAndHost| #[trigger]
            after.contains(y) <==> before.contains(y) || y == x by {
            if after.contains(y) {
                let a = choose|a: int| 0 <= a < after.len() && after[a] == y;
                if a < p {
                    assert(before[a] == y);
                } else if a > p {
                    assert(before[a - 1] == y);
                }
            }
            if before.contains(y) {
                let b = choose|b: int| 0 <= b < before.len() && before[b] == y;
                if b < p {
                    assert(after[b] == y);
                } else {
                    assert(after[b + 1] == y);
                }
            }
            if y == x {
                assert(after[p as int] == y);
            }
        }
    }
    sorted.insert(p, x);
}

/// Whether `typ` is among `roles`.
pub fn role_among(roles: &Vec<RoleType>, typ: RoleType) -> (r: bool)
    ensures
        r == roles@.contains(typ),
{
    let mut i: usize = 0;
    while i < roles.len()
        invariant
            i <= roles.len(),
            forall|j: int| 0 <= j < i ==> roles@[j] != typ,
        decreases roles.len() - i,
    {
        if roles[i] == typ {
            return true;
        }
        i += 1;
    }
    false
}

/// The memberships of the group `group_id` that a listing shows: those
/// whose role is among `roles`, whose holder and whose host have a cached
/// profile, and whose holder matches `query`.
pub open spec fn listed(store: Store, group_id: i32, roles: Seq<RoleType>, query: Seq<char>) -> spec_fn(
    Membership,
) -> bool {
    |m: Membership|
        {
            &&& m.group_id == group_id
            &&& roles.contains(store.role_by_id(m.role_id).typ)
            &&& store.has_user(m.user_uuid)
            &&& store.has_user(m.added_by)
            &&& matches_query(store.user(m.user_uuid), query)
        }
}

/// A membership as shown.
pub open spec fn display_of(store: Store) -> spec_fn(Membership) -> DisplayMemberAndHost {
    |m: Membership|
        DisplayMemberAndHost {
            member: store.user(m.user_uuid),
            role: store.role_by_id(m.role_id).typ,
            since: m.added_ts,
            expiration: m.expiration,
            host: store.user(m.added_by),
        }
}

/// The rows that a listing of the group `group_id` shows, in the order of
/// the membership table.
pub open spec fn found_rows(store: Store, group_id: i32, roles: Seq<RoleType>, query: Seq<char>) -> Seq<
    DisplayMemberAndHost,
> {
    store.memberships@.filter(listed(store, group_id, roles, query)).map_values(display_of(store))
}

/// The rows that a listing of the group `group_id` shows.
fn find_rows(store: &Store, group_id: i32, roles: &Vec<RoleType>, query: &str) -> (r: Vec<
    DisplayMemberAndHost,
>)
    requires
        store.wf(),
    ensures
        r@ == found_rows(*store, group_id, roles@, query@),
{
    let ghost rows = store.memberships@;
    let ghost pred = listed(*store, group_id, roles@, query@);
    let ghost f = display_of(*store);
    let mut found: Vec<DisplayMemberAndHost> = Vec::new();
    let mut i: usize = 0;
    assert(rows.take(0).filter(pred).map_values(f) =~= Seq::<DisplayMemberAndHost>::empty());
    while i < store.memberships.len()
        invariant
            store.wf(),
            i <= store.memberships.len(),
            rows == store.memberships@,
            pred == listed(*store, group_id, roles@, query@),
            f == display_of(*store),
            found@ == rows.take(i as int).filter(pred).map_values(f),
        decreases store.memberships.len() - i,
    {
        let m = store.memberships[i];
        proof {
            lemma_filter_map_step(rows, i as int, pred, f);
            let k = choose|k: int| role_id_at(store.roles@, m.role_id, m.group_id, k);
            assert(role_id_at(store.roles@, m.role_id, m.group_id, k));
        }
        if m.group_id == group_id {
            match store.find_role_by_id(m.role_id) {
                Some(k) => {
                    let typ = store.roles[k].typ;
                    if role_among(roles, typ) {
                        match (store.find_user(m.user_uuid), store.find_user(m.added_by)) {
                            (Some(u), Some(h)) => {
                                if profile_matches(&store.users[u], query) {
                                    found.push(
                                        DisplayMemberAndHost {
                                            member: store.users[u].clone(),
                                            role: typ,
                                            since: m.added_ts,
                                            expiration: m.expiration,
                                            host: store.users[h].clone(),
                                        },
                                    );
                                }
                            },
                            _ => {},
                        }
                    }
                },
                None => {},
            }
        }
        i += 1;
    }
    proof {
        lemma_take_all(rows);
    }
    found
}

/// The rows that a listing shows belong to different users.
pub proof fn lemma_found_rows_differ(
    store: Store,
    group_id: i32,
    roles: Seq<RoleType>,
    query: Seq<char>,
    a: int,
    b: int,
)
    requires
        store.wf(),
        0 <= a < b < found_rows(store, group_id, roles, query).len(),
    ensures
        found_rows(store, group_id, roles, query)[a].member.user_uuid != found_rows(
            store,
            group_id,
            roles,
            query,
        )[b].member.user_uuid,
{
    let rows = store.memberships@;
    let pred = listed(store, group_id, roles, query);
    let kept = rows.filter(pred);
    lemma_filter_keeps_order(rows, pred, a, b);
    let (i, j) = choose|i: int, j: int|
        0 <= i < j < rows.len() && rows[i] == kept[a] && rows[j] == kept[b];
    rows.lemma_filter_pred(pred, a);
    rows.lemma_filter_pred(pred, b);
    assert(key_of(rows[i]) != key_of(rows[j]));
    let ua = choose|u: int| crate::store::user_at(store.users@, kept[a].user_uuid, u);
    lemma_user_rows(store.users@, ua);
    let ub = choose|u: int| crate::store::user_at(store.users@, kept[b].user_uuid, u);
    lemma_user_rows(store.users@, ub);
}

/// The rows `found` in the order of a listing.
fn sort_rows(found: Vec<DisplayMemberAndHost>) -> (all: Vec<DisplayMemberAndHost>)
    requires
        forall|a: int, b: int|
            #![trigger found@[a], found@[b]]
            0 <= a < b < found@.len() ==> found@[a].member.user_uuid != found@[b].member.user_uuid,
    ensures
        is_listing(all@, found@),
{
    let mut all: Vec<DisplayMemberAndHost> = Vec::new();
    let mut i: usize = 0;
    assert(found@.take(0) =~= Seq::<DisplayMemberAndHost>::empty());
    while i < found.len()
        invariant
            i <= found.len(),
            in_order(all@),
            all@.len() == i,
            forall|y: DisplayMemberAndHost|
                #[trigger] all@.contains(y) <==> found@.take(i as int).contains(y),
            forall|a: int, b: int|
                #![trigger found@[a], found@[b]]
                0 <= a < b < found@.len() ==> found@[a].member.user_uuid
                    != found@[b].member.user_uuid,
        decreases found.len() - i,
    {
        let x = found[i].clone();
        proof {
            lemma_take_step(found@, i as int);
            assert forall|j: int| 0 <= j < all@.len() implies (#[trigger] all@[j]).member.user_uuid
                != x.member.user_uuid by {
                assert(all@.contains(all@[j]));
                let k = choose|k: int|
                    0 <= k < found@.take(i as int).len() && found@.take(i as int)[k] == all@[j];
                assert(found@[k] == all@[j]);
            }
        }
        let ghost before = all@;
        insert_in_order(&mut all, x);
        proof {
            assert forall|y: DisplayMemberAndHost| #[trigger]
                all@.contains(y) <==> found@.take(i + 1).contains(y) by {
                let wider = found@.take(i + 1);
                let narrow = found@.take(i as int);
                if wider.contains(y) {
                    let k = choose|k: int| 0 <= k < wider.len() && wider[k] == y;
                    if k < i {
                        assert(narrow[k] == y);
                    }
                }
                if narrow.contains(y) {
                    let k = choose|k: int| 0 <= k < narrow.len() && narrow[k] == y;
                    assert(wider[k] == y);
                }
                if y == x {
                    assert(wider[i as int] == y);
                }
            }
        }
        i += 1;
    }
    proof {
        lemma_take_all(found@);
    }
    all
}

/// The offset of a listing: the beginning where none is given.
pub open spec fn offset_or_start(offset: Option<i64>) -> i64 {
    match offset {
        Some(o) => o,
        None => 0,
    }
}

/// The text that a listing is searched for: the empty text, which every
/// name starts with, where none is given.
pub open spec fn query_or_any(query: Option<Seq<char>>) -> Seq<char> {
    match query {
        Some(q) => q,
        None => Seq::empty(),
    }
}

/// What [`scoped_members_and_host`] returns.
pub open spec fn listing_post(
    store: Store,
    scope: TrustType,
    group_name: Seq<char>,
    query: Option<Seq<char>>,
    roles: Seq<RoleType>,
    limit: i64,
    offset: Option<i64>,
    r: Result<PaginatedDisplayMembersAndHost, PacksError>,
) -> bool {
    let allowed = scope.rank() >= store.group(group_name).trust.rank();
    &&& !store.has_group(group_name) ==> failed_with(r, PacksError::GroupNotFound)
    &&& store.has_group(group_name) && !allowed ==> failed_with(r, PacksError::NotAllowed)
    &&& store.has_group(group_name) && allowed ==> r is Ok
    &&& r matches Ok(page) ==> exists|all: Seq<DisplayMemberAndHost>|
        shows(
            all,
            store,
            store.group_id(group_name),
            roles,
            query_or_any(query),
            limit,
            offset_or_start(offset),
            page,
        )
}

/// Whether `page` is the part at `start` of at most `limit` rows of the
/// listing `all` of the group `group_id`.
pub open spec fn shows(
    all: Seq<DisplayMemberAndHost>,
    store: Store,
    group_id: i32,
    roles: Seq<RoleType>,
    query: Seq<char>,
    limit: i64,
    start: i64,
    page: PaginatedDisplayMembersAndHost,
) -> bool {
    &&& is_listing(all, found_rows(store, group_id, roles, query))
    &&& page.members@ == page_of(all, start, limit)
    &&& page.next == next_after(start, page.members@.len() as int)
}

/// One page of the members of the group called `group_name`, for a viewer
/// who acts at the tier `scope`. The page holds at most `limit` members from
/// the offset `offset` on, of those whose role is among `roles` and whose
/// full name, first name, last name, user name or mail address starts with
/// `query`, in the order of role, user name and UUID.
pub fn scoped_members_and_host(
    store: &Store,
    scope: TrustType,
    group_name: &str,
    query: Option<String>,
    roles: &Vec<RoleType>,
    limit: i64,
    offset: Option<i64>,
) -> (r: Result<PaginatedDisplayMembersAndHost, PacksError>)
    requires
        store.wf(),
    ensures
        listing_post(
            *store,
            scope,
            group_name@,
            text_of(query),
            roles@,
            limit,
            offset,
            r,
        ),
{
    let gi = match store.find_group(group_name) {
        Some(gi) => gi,
        None => {
            return Err(PacksError::GroupNotFound);
        },
    };
    if !scope.covers(&store.groups[gi].trust) {
        return Err(PacksError::NotAllowed);
    }
    let group_id: i32 = store.groups[gi].id;
    let start: i64 = match offset {
        Some(o) => o,
        None => 0,
    };
    let wanted = match &query {
        Some(q) => q.clone(),
        None => String::new(),
    };
    let ghost asked = query_or_any(text_of(query));
    assert(wanted@ == asked);
    assert(start == offset_or_start(offset));
    let found = find_rows(store, group_id, roles, wanted.as_str());
    proof {
        assert forall|a: int, b: int| 0 <= a < b < found@.len() implies (
        #[trigger] found@[a]).member.user_uuid
            != (#[trigger] found@[b]).member.user_uuid by {
            lemma_found_rows_differ(*store, group_id, roles@, wanted@, a, b);
        }
    }
    let ghost seen = found@;
    let all = sort_rows(found);
    let bounds = page_bounds(all.len(), start, limit);
    let mut members: Vec<DisplayMemberAndHost> = Vec::new();
    let mut j: usize = bounds.start;
    assert(all@.subrange(bounds.start as int, bounds.start as int) =~= Seq::<
        DisplayMemberAndHost,
    >::empty());
    while j < bounds.end
        invariant
            bounds.start <= j <= bounds.end <= all@.len(),
            members@ == all@.subrange(bounds.start as int, j as int),
        decreases bounds.end - j,
    {
        members.push(all[j].clone());
        assert(members@ =~= all@.subrange(bounds.start as int, j + 1));
        j += 1;
    }
    let page = PaginatedDisplayMembersAndHost { members, next: bounds.next };
    let ghost shown = page;
    let r = Ok(page);
    proof {
        assert(r matches Ok(got) && got == shown);
        assert(shows(all@, *store, store.group_id(group_name@), roles@, asked, limit, start, shown));
    }
    r
}

} // verus!
