use vstd::prelude::*;

verus! {

/// A source that an earlier import registered in the archive.
pub struct RegisteredSource {
    pub id: String,
    pub name: String,
    pub group: String,
    pub tags: Vec<String>,
}

/// A partition that is mounted right now.
pub struct MountedPartition {
    pub id: String,
    pub mount_point: String,
}

pub enum RegistrationState {
    Registered { name: String, group: String },
    Unregistered,
}

pub enum ConnectionState {
    Connected { mount_point: String },
    Disconnected,
}

/// One entry of the unified view of registered and mounted sources.
pub struct ArchiveSource {
    pub id: String,
    pub registration: RegistrationState,
    pub connection: ConnectionState,
}

pub enum RegistrationView {
    Registered { name: Seq<char>, group: Seq<char> },
    Unregistered,
}

pub enum ConnectionView {
    Connected { mount_point: Seq<char> },
    Disconnected,
}

pub struct ArchiveSourceView {
    pub id: Seq<char>,
    pub registration: RegistrationView,
    pub connection: ConnectionView,
}

impl View for RegistrationState {
    type V = RegistrationView;

    open spec fn view(&self) -> RegistrationView {
        match self {
            RegistrationState::Registered { name, group } => RegistrationView::Registered {
                name: name@,
                group: group@,
            },
            RegistrationState::Unregistered => RegistrationView::Unregistered,
        }
    }
}

impl View for ConnectionState {
    type V = ConnectionView;

    open spec fn view(&self) -> ConnectionView {
        match self {
            ConnectionState::Connected { mount_point } => ConnectionView::Connected {
                mount_point: mount_point@,
            },
            ConnectionState::Disconnected => ConnectionView::Disconnected,
        }
    }
}

impl View for ArchiveSource {
    type V = ArchiveSourceView;

    open spec fn view(&self) -> ArchiveSourceView {
        ArchiveSourceView {
            id: self.id@,
            registration: self.registration@,
            connection: self.connection@,
        }
    }
}

pub open spec fn sources_view(s: Seq<ArchiveSource>) -> Seq<ArchiveSourceView> {
    s.map_values(|a: ArchiveSource| a@)
}

/// How many of the first `k` mounted partitions report `id`.
pub open spec fn mount_count(m: Seq<MountedPartition>, id: Seq<char>, k: int) -> nat
    decreases k,
{
    if k <= 0 {
        0
    } else {
        mount_count(m, id, k - 1) + if m[k - 1].id@ == id {
            1nat
        } else {
            0nat
        }
    }
}

/// An id is connected when exactly one mounted partition reports it; an id
/// reported by several partitions is ambiguous and is not connected.
pub open spec fn mounted_once(m: Seq<MountedPartition>, id: Seq<char>) -> bool {
    mount_count(m, id, m.len() as int) == 1
}

/// The index of the last of the first `k` registered sources that has `id`,
/// or -1 when there is none: a later registration of an id replaces an
/// earlier one.
pub open spec fn last_registered(r: Seq<RegisteredSource>, id: Seq<char>, k: int) -> int
    decreases k,
{
    if k <= 0 {
        -1
    } else if r[k - 1].id@ == id {
        k - 1
    } else {
        last_registered(r, id, k - 1)
    }
}

/// The registration that the store holds for `id`.
pub open spec fn registration_of(r: Seq<RegisteredSource>, id: Seq<char>) -> RegistrationView {
    let i = last_registered(r, id, r.len() as int);
    if i < 0 {
        RegistrationView::Unregistered
    } else {
        RegistrationView::Registered { name: r[i].name@, group: r[i].group@ }
    }
}

pub open spec fn connected_entry(p: MountedPartition, r: Seq<RegisteredSource>) -> ArchiveSourceView {
    ArchiveSourceView {
        id: p.id@,
        registration: registration_of(r, p.id@),
        connection: ConnectionView::Connected { mount_point: p.mount_point@ },
    }
}

pub open spec fn disconnected_entry(s: RegisteredSource) -> ArchiveSourceView {
    ArchiveSourceView {
        id: s.id@,
        registration: RegistrationView::Registered { name: s.name@, group: s.group@ },
        connection: ConnectionView::Disconnected,
    }
}

/// The connected entries for the first `k` mounted partitions, in mount order:
/// one for each partition whose id no other partition reports.
pub open spec fn connected_entries(
    m: Seq<MountedPartition>,
    r: Seq<RegisteredSource>,
    k: int,
) -> Seq<ArchiveSourceView>
    decreases k,
{
    if k <= 0 {
        Seq::empty()
    } else if mounted_once(m, m[k - 1].id@) {
        connected_entries(m, r, k - 1).push(connected_entry(m[k - 1], r))
    } else {
        connected_entries(m, r, k - 1)
    }
}

/// Registered source `i` is the one the store holds for its id and no
/// connected entry took it.
pub open spec fn stays_disconnected(
    m: Seq<MountedPartition>,
    r: Seq<RegisteredSource>,
    i: int,
) -> bool {
    last_registered(r, r[i].id@, r.len() as int) == i && !mounted_once(m, r[i].id@)
}

/// The disconnected entries for the first `k` registered sources, in store order.
pub open spec fn disconnected_entries(
    m: Seq<MountedPartition>,
    r: Seq<RegisteredSource>,
    k: int,
) -> Seq<ArchiveSourceView>
    decreases k,
{
    if k <= 0 {
        Seq::empty()
    } else if stays_disconnected(m, r, k - 1) {
        disconnected_entries(m, r, k - 1).push(disconnected_entry(r[k - 1]))
    } else {
        disconnected_entries(m, r, k - 1)
    }
}

/// The unified view: connected entries in mount order, then the registered
/// sources that none of them took, in store order.
pub open spec fn reconciled(
    m: Seq<MountedPartition>,
    r: Seq<RegisteredSource>,
) -> Seq<ArchiveSourceView> {
    connected_entries(m, r, m.len() as int) + disconnected_entries(m, r, r.len() as int)
}

proof fn lemma_last_registered_range(r: Seq<RegisteredSource>, id: Seq<char>, k: int)
    requires
        0 <= k <= r.len(),
    ensures
        -1 <= last_registered(r, id, k) < k,
        last_registered(r, id, k) >= 0 ==> r[last_registered(r, id, k)].id@ == id,
    decreases k,
{
    if k > 0 {
        lemma_last_registered_range(r, id, k - 1);
    }
}

fn count_mounted(mounted: &Vec<MountedPartition>, id: &String) -> (n: usize)
    ensures
        n == mount_count(mounted@, id@, mounted@.len() as int),
{
    let mut n: usize = 0;
    let mut i: usize = 0;
    while i < mounted.len()
        invariant
            i <= mounted@.len(),
            n == mount_count(mounted@, id@, i as int),
            n <= i,
        decreases mounted@.len() - i,
    {
        if mounted[i].id == *id {
            n = n + 1;
        }
        i = i + 1;
    }
    n
}

fn find_registered(registered: &Vec<RegisteredSource>, id: &String) -> (r: Option<usize>)
    ensures
        match r {
            Some(i) => i < registered@.len() && i as int == last_registered(
                registered@,
                id@,
                registered@.len() as int,
            ),
            None => last_registered(registered@, id@, registered@.len() as int) == -1,
        },
{
    let mut found: Option<usize> = None;
    let mut i: usize = 0;
    while i < registered.len()
        invariant
            i <= registered@.len(),
            match found {
                Some(j) => j as int == last_registered(registered@, id@, i as int),
                None => last_registered(registered@, id@, i as int) == -1,
            },
        decreases registered@.len() - i,
    {
        if registered[i].id == *id {
            found = Some(i);
        }
        i = i + 1;
    }
    proof {
        lemma_last_registered_range(registered@, id@, registered@.len() as int);
    }
    found
}

/// Merges the registered sources with the partitions mounted at one instant.
pub fn list_sources(registered: &Vec<RegisteredSource>, mounted: &Vec<MountedPartition>) -> (r: Vec<
    ArchiveSource,
>)
    ensures
        sources_view(r@) == reconciled(mounted@, registered@),
{
    let mut out: Vec<ArchiveSource> = Vec::new();
    let mut i: usize = 0;
    while i < mounted.len()
        invariant
            i <= mounted@.len(),
            sources_view(out@) == connected_entries(mounted@, registered@, i as int),
        decreases mounted@.len() - i,
    {
        let p = &mounted[i];
        if count_mounted(mounted, &p.id) == 1 {
            let registration = match find_registered(registered, &p.id) {
                Some(j) => RegistrationState::Registered {
                    name: registered[j].name.clone(),
                    group: registered[j].group.clone(),
                },
                None => RegistrationState::Unregistered,
            };
            let entry = ArchiveSource {
                id: p.id.clone(),
                registration,
                connection: ConnectionState::Connected { mount_point: p.mount_point.clone() },
            };
            out.push(entry);
            assert(sources_view(out@) =~= connected_entries(mounted@, registered@, i + 1));
        } else {
            assert(sources_view(out@) =~= connected_entries(mounted@, registered@, i + 1));
        }
        i = i + 1;
    }
    let ghost connected = sources_view(out@);
    let mut k: usize = 0;
    while k < registered.len()
        invariant
            k <= registered@.len(),
            connected == connected_entries(mounted@, registered@, mounted@.len() as int),
            sources_view(out@) == connected + disconnected_entries(mounted@, registered@, k as int),
        decreases registered@.len() - k,
    {
        let s = &registered[k];
        let ghost before = sources_view(out@);
        let is_current = match find_registered(registered, &s.id) {
            Some(j) => j == k,
            None => false,
        };
        if is_current && count_mounted(mounted, &s.id) != 1 {
            let entry = ArchiveSource {
                id: s.id.clone(),
                registration: RegistrationState::Registered {
                    name: s.name.clone(),
                    group: s.group.clone(),
                },
                connection: ConnectionState::Disconnected,
            };
            out.push(entry);
            assert(sources_view(out@) =~= before.push(disconnected_entry(registered@[k as int])));
        }
        assert(sources_view(out@) =~= connected + disconnected_entries(
            mounted@,
            registered@,
            k + 1,
        ));
        k = k + 1;
    }
    out
}

proof fn lemma_count_two(m: Seq<MountedPartition>, id: Seq<char>, i: int, j: int, k: int)
    requires
        0 <= i < j < k <= m.len(),
        m[i].id@ == id,
        m[j].id@ == id,
    ensures
        mount_count(m, id, k) >= 2,
    decreases k,
{
    if j < k - 1 {
        lemma_count_two(m, id, i, j, k - 1);
    } else {
        lemma_count_one(m, id, i, k - 1);
    }
}

proof fn lemma_count_one(m: Seq<MountedPartition>, id: Seq<char>, i: int, k: int)
    requires
        0 <= i < k <= m.len(),
        m[i].id@ == id,
    ensures
        mount_count(m, id, k) >= 1,
    decreases k,
{
    if i < k - 1 {
        lemma_count_one(m, id, i, k - 1);
    }
}

proof fn lemma_last_registered_covers(r: Seq<RegisteredSource>, i: int, k: int)
    requires
        0 <= i < k <= r.len(),
    ensures
        i <= last_registered(r, r[i].id@, k),
    decreases k,
{
    if i < k - 1 {
        lemma_last_registered_covers(r, i, k - 1);
    }
}

/// Every connected entry comes from a mounted partition that no other
/// partition shares an id with; no two connected entries share an id.
proof fn lemma_connected_entries(m: Seq<MountedPartition>, r: Seq<RegisteredSource>, k: int)
    requires
        0 <= k <= m.len(),
    ensures
        forall|a: int|
            #![trigger connected_entries(m, r, k)[a]]
            0 <= a < connected_entries(m, r, k).len() ==> {
                &&& mounted_once(m, connected_entries(m, r, k)[a].id)
                &&& connected_entries(m, r, k)[a].connection is Connected
                &&& exists|i: int| 0 <= i < k && m[i].id@ == connected_entries(m, r, k)[a].id
            },
        forall|a: int, b: int|
            0 <= a < b < connected_entries(m, r, k).len() ==> connected_entries(m, r, k)[a].id
                != connected_entries(m, r, k)[b].id,
    decreases k,
{
    if k > 0 {
        lemma_connected_entries(m, r, k - 1);
        let prev = connected_entries(m, r, k - 1);
        let cur = connected_entries(m, r, k);
        if mounted_once(m, m[k - 1].id@) {
            assert forall|a: int| 0 <= a < prev.len() implies prev[a].id != m[k - 1].id@ by {
                let i = choose|i: int| 0 <= i < k - 1 && m[i].id@ == prev[a].id;
                if prev[a].id == m[k - 1].id@ {
                    lemma_count_two(m, m[k - 1].id@, i, k - 1, m.len() as int);
                }
            }
            assert forall|a: int|
                #![trigger cur[a]]
                0 <= a < cur.len() implies exists|i: int| 0 <= i < k && m[i].id@ == cur[a].id by {
                if a < prev.len() {
                    let i = choose|i: int| 0 <= i < k - 1 && m[i].id@ == prev[a].id;
                    assert(0 <= i < k && m[i].id@ == cur[a].id);
                } else {
                    assert(m[k - 1].id@ == cur[a].id);
                }
            }
        } else {
            assert forall|a: int|
                #![trigger cur[a]]
                0 <= a < cur.len() implies exists|i: int| 0 <= i < k && m[i].id@ == cur[a].id by {
                let i = choose|i: int| 0 <= i < k - 1 && m[i].id@ == prev[a].id;
                assert(0 <= i < k && m[i].id@ == cur[a].id);
            }
        }
    }
}

/// Every disconnected entry is the current registration of an id that is not
/// connected; no two of them share an id; each such registration among the
/// first `k` has its entry.
proof fn lemma_disconnected_entries(m: Seq<MountedPartition>, r: Seq<RegisteredSource>, k: int)
    requires
        0 <= k <= r.len(),
    ensures
        forall|a: int|
            #![trigger disconnected_entries(m, r, k)[a]]
            0 <= a < disconnected_entries(m, r, k).len() ==> {
                &&& !mounted_once(m, disconnected_entries(m, r, k)[a].id)
                &&& disconnected_entries(m, r, k)[a].connection is Disconnected
                &&& exists|i: int|
                    0 <= i < k && stays_disconnected(m, r, i) && disconnected_entries(m, r, k)[a]
                        == disconnected_entry(r[i])
            },
        forall|a: int, b: int|
            0 <= a < b < disconnected_entries(m, r, k).len() ==> disconnected_entries(m, r, k)[a].id
                != disconnected_entries(m, r, k)[b].id,
        forall|i: int|
            0 <= i < k && stays_disconnected(m, r, i) ==> disconnected_entries(m, r, k).contains(
                disconnected_entry(r[i]),
            ),
    decreases k,
{
    if k > 0 {
        lemma_disconnected_entries(m, r, k - 1);
        let prev = disconnected_entries(m, r, k - 1);
        let cur = disconnected_entries(m, r, k);
        if stays_disconnected(m, r, k - 1) {
            assert forall|a: int| 0 <= a < prev.len() implies prev[a].id != r[k - 1].id@ by {
                let i = choose|i: int|
                    0 <= i < k - 1 && stays_disconnected(m, r, i) && prev[a] == disconnected_entry(
                        r[i],
                    );
            }
            assert forall|a: int|
                #![trigger cur[a]]
                0 <= a < cur.len() implies exists|i: int|
                    0 <= i < k && stays_disconnected(m, r, i) && cur[a] == disconnected_entry(
                        r[i],
                    ) by {
                if a < prev.len() {
                    let i = choose|i: int|
                        0 <= i < k - 1 && stays_disconnected(m, r, i) && prev[a]
                            == disconnected_entry(r[i]);
                    assert(cur[a] == prev[a]);
                } else {
                    assert(cur[a] == disconnected_entry(r[k - 1]));
                }
            }
            assert forall|i: int|
                0 <= i < k && stays_disconnected(m, r, i) implies cur.contains(
                disconnected_entry(r[i]),
            ) by {
                if i < k - 1 {
                    let a = choose|a: int| 0 <= a < prev.len() && prev[a] == disconnected_entry(r[i]);
                    assert(cur[a] == prev[a]);
                } else {
                    assert(cur[cur.len() - 1] == disconnected_entry(r[i]));
                }
            }
        }
    }
}

/// No two entries of a reconciliation result share an id.
pub proof fn lemma_reconciled_ids_unique(m: Seq<MountedPartition>, r: Seq<RegisteredSource>)
    ensures
        forall|a: int, b: int|
            0 <= a < b < reconciled(m, r).len() ==> reconciled(m, r)[a].id != reconciled(
                m,
                r,
            )[b].id,
{
    let c = connected_entries(m, r, m.len() as int);
    let d = disconnected_entries(m, r, r.len() as int);
    lemma_connected_entries(m, r, m.len() as int);
    lemma_disconnected_entries(m, r, r.len() as int);
    let res = reconciled(m, r);
    assert forall|a: int, b: int| 0 <= a < b < res.len() implies res[a].id != res[b].id by {
        if b < c.len() {
            assert(res[a] == c[a] && res[b] == c[b]);
        } else if a >= c.len() {
            assert(res[a] == d[a - c.len()] && res[b] == d[b - c.len()]);
        } else {
            assert(res[a] == c[a] && res[b] == d[b - c.len()]);
        }
    }
}

/// An id that is not connected has only disconnected entries, and where it is
/// registered, its current registration is listed.
proof fn lemma_entries_of_unconnected_id(
    m: Seq<MountedPartition>,
    r: Seq<RegisteredSource>,
    id: Seq<char>,
)
    requires
        !mounted_once(m, id),
    ensures
        forall|a: int|
            0 <= a < reconciled(m, r).len() && reconciled(m, r)[a].id == id ==> reconciled(
                m,
                r,
            )[a].connection is Disconnected,
        forall|i: int|
            0 <= i < r.len() && r[i].id@ == id ==> exists|a: int|
                0 <= a < reconciled(m, r).len() && reconciled(m, r)[a] == disconnected_entry(
                    r[last_registered(r, id, r.len() as int)],
                ),
{
    let c = connected_entries(m, r, m.len() as int);
    let d = disconnected_entries(m, r, r.len() as int);
    lemma_connected_entries(m, r, m.len() as int);
    lemma_disconnected_entries(m, r, r.len() as int);
    let res = reconciled(m, r);
    assert forall|a: int|
        0 <= a < res.len() && res[a].id == id implies res[a].connection is Disconnected by {
        if a < c.len() {
            assert(res[a] == c[a]);
        } else {
            assert(res[a] == d[a - c.len()]);
        }
    }
    assert forall|i: int| 0 <= i < r.len() && r[i].id@ == id implies exists|a: int|
        0 <= a < res.len() && res[a] == disconnected_entry(
            r[last_registered(r, id, r.len() as int)],
        ) by {
        lemma_last_registered_covers(r, i, r.len() as int);
        lemma_last_registered_range(r, id, r.len() as int);
        let j = last_registered(r, id, r.len() as int);
        assert(stays_disconnected(m, r, j));
        let a = choose|a: int| 0 <= a < d.len() && d[a] == disconnected_entry(r[j]);
        assert(res[c.len() + a] == d[a]);
    }
}

/// A registered source whose id no mounted partition reports is listed, and
/// every entry with its id is disconnected.
pub proof fn lemma_unmounted_source_disconnected(
    m: Seq<MountedPartition>,
    r: Seq<RegisteredSource>,
    i: int,
)
    requires
        0 <= i < r.len(),
        mount_count(m, r[i].id@, m.len() as int) == 0,
    ensures
        exists|a: int| 0 <= a < reconciled(m, r).len() && reconciled(m, r)[a].id == r[i].id@,
        forall|a: int|
            0 <= a < reconciled(m, r).len() && reconciled(m, r)[a].id == r[i].id@ ==> reconciled(
                m,
                r,
            )[a].connection is Disconnected,
{
    let id = r[i].id@;
    lemma_entries_of_unconnected_id(m, r, id);
    lemma_last_registered_range(r, id, r.len() as int);
    lemma_last_registered_covers(r, i, r.len() as int);
    let a = choose|a: int|
        0 <= a < reconciled(m, r).len() && reconciled(m, r)[a] == disconnected_entry(
            r[last_registered(r, id, r.len() as int)],
        );
    assert(reconciled(m, r)[a].id == id);
}

/// An id reported by two or more mounted partitions has no connected entry;
/// when it is registered, exactly one entry has it, and that entry is
/// disconnected.
pub proof fn lemma_ambiguous_id_not_connected(
    m: Seq<MountedPartition>,
    r: Seq<RegisteredSource>,
    id: Seq<char>,
)
    requires
        mount_count(m, id, m.len() as int) >= 2,
    ensures
        forall|a: int|
            0 <= a < reconciled(m, r).len() && reconciled(m, r)[a].id == id ==> reconciled(
                m,
                r,
            )[a].connection is Disconnected,
        (exists|i: int| 0 <= i < r.len() && r[i].id@ == id) ==> exists|a: int|
            {
                &&& 0 <= a < reconciled(m, r).len()
                &&& reconciled(m, r)[a].id == id
                &&& reconciled(m, r)[a].connection is Disconnected
                &&& forall|b: int|
                    0 <= b < reconciled(m, r).len() && b != a ==> reconciled(m, r)[b].id != id
            },
{
    lemma_entries_of_unconnected_id(m, r, id);
    lemma_reconciled_ids_unique(m, r);
    lemma_last_registered_range(r, id, r.len() as int);
    let res = reconciled(m, r);
    if exists|i: int| 0 <= i < r.len() && r[i].id@ == id {
        let i = choose|i: int| 0 <= i < r.len() && r[i].id@ == id;
        lemma_last_registered_covers(r, i, r.len() as int);
        let a = choose|a: int|
            0 <= a < res.len() && res[a] == disconnected_entry(
                r[last_registered(r, id, r.len() as int)],
            );
        assert(res[a].id == id);
        assert forall|b: int| 0 <= b < res.len() && b != a implies res[b].id != id by {
            if b < a {
                assert(res[b].id != res[a].id);
            } else {
                assert(res[a].id != res[b].id);
            }
        }
    }
}

/// The name of the group that every archive has, registered sources or not.
pub open spec fn root_group() -> Seq<char> {
    "ROOT"@
}

pub open spec fn strings_view(v: Seq<String>) -> Seq<Seq<char>> {
    v.map_values(|s: String| s@)
}

fn contains_string(v: &Vec<String>, s: &String) -> (b: bool)
    ensures
        b == strings_view(v@).contains(s@),
{
    let mut i: usize = 0;
    while i < v.len()
        invariant
            i <= v@.len(),
            forall|j: int| 0 <= j < i ==> v@[j]@ != s@,
        decreases v@.len() - i,
    {
        if v[i] == *s {
            assert(strings_view(v@)[i as int] == s@);
            return true;
        }
        i = i + 1;
    }
    proof {
        if strings_view(v@).contains(s@) {
            let j = choose|j: int| 0 <= j < strings_view(v@).len() && strings_view(v@)[j] == s@;
            assert(v@[j]@ == s@);
        }
    }
    false
}

/// The distinct groups of the registered sources, together with the root group.
pub fn list_groups(registered: &Vec<RegisteredSource>) -> (r: Vec<String>)
    ensures
        strings_view(r@).no_duplicates(),
        forall|g: Seq<char>|
            strings_view(r@).contains(g) <==> (g == root_group() || exists|i: int|
                0 <= i < registered@.len() && registered@[i].group@ == g),
{
    let mut out: Vec<String> = Vec::new();
    let mut k: usize = 0;
    while k < registered.len()
        invariant
            k <= registered@.len(),
            strings_view(out@).no_duplicates(),
            forall|g: Seq<char>|
                strings_view(out@).contains(g) <==> exists|i: int|
                    0 <= i < k && registered@[i].group@ == g,
        decreases registered@.len() - k,
    {
        let source = &registered[k];
        let ghost before = strings_view(out@);
        let ghost gk = registered@[k as int].group@;
        if !contains_string(&out, &source.group) {
            out.push(source.group.clone());
            assert(strings_view(out@) =~= before.push(gk));
            assert forall|g: Seq<char>|
                strings_view(out@).contains(g) <==> (before.contains(g) || g == gk) by {
                if before.contains(g) {
                    let a = choose|a: int| 0 <= a < before.len() && before[a] == g;
                    assert(strings_view(out@)[a] == g);
                }
                if g == gk {
                    assert(strings_view(out@)[before.len() as int] == g);
                }
            }
        } else {
            assert(before.contains(gk));
            assert(strings_view(out@) == before);
        }
        assert forall|g: Seq<char>|
            strings_view(out@).contains(g) <==> exists|i: int|
                0 <= i < k + 1 && registered@[i].group@ == g by {
            assert(strings_view(out@).contains(g) <==> (before.contains(g) || g == gk));
            if strings_view(out@).contains(g) {
                if before.contains(g) {
                    let i = choose|i: int| 0 <= i < k && registered@[i].group@ == g;
                    assert(0 <= i < k + 1 && registered@[i].group@ == g);
                } else {
                    assert(registered@[k as int].group@ == g);
                }
            }
            if exists|i: int| 0 <= i < k + 1 && registered@[i].group@ == g {
                let i = choose|i: int| 0 <= i < k + 1 && registered@[i].group@ == g;
                if i < k {
                    assert(before.contains(g));
                }
            }
        }
        k = k + 1;
    }
    let root = String::from_str("ROOT");
    let ghost before = strings_view(out@);
    if !contains_string(&out, &root) {
        out.push(root);
        assert(strings_view(out@) =~= before.push(root_group()));
        assert forall|g: Seq<char>|
            strings_view(out@).contains(g) <==> (before.contains(g) || g == root_group()) by {
            if before.contains(g) {
                let a = choose|a: int| 0 <= a < before.len() && before[a] == g;
                assert(strings_view(out@)[a] == g);
            }
            if g == root_group() {
                assert(strings_view(out@)[before.len() as int] == g);
            }
        }
    } else {
        assert(before.contains(root_group()));
        assert(strings_view(out@) == before);
    }
    assert forall|g: Seq<char>|
        strings_view(out@).contains(g) <==> (g == root_group() || exists|i: int|
            0 <= i < registered@.len() && registered@[i].group@ == g) by {
        assert(strings_view(out@).contains(g) <==> (before.contains(g) || g == root_group()));
    }
    out
}

} // verus!
