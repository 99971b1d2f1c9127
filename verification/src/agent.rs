//! What the agent stores about itself when it starts.
use vstd::prelude::*;

verus! {

/// The system information the agent stores, in order: the system name and
/// the cluster, each only where it is known (not empty).
pub open spec fn system_entries(system_name: Seq<char>, system_cluster: Seq<char>) -> Seq<(Seq<char>, Seq<char>)> {
    (if system_name.len() > 0 {
        seq![("system"@, system_name)]
    } else {
        Seq::<(Seq<char>, Seq<char>)>::empty()
    }) + (if system_cluster.len() > 0 {
        seq![("cluster"@, system_cluster)]
    } else {
        Seq::<(Seq<char>, Seq<char>)>::empty()
    })
}

/// The (key, value) pairs the agent writes to its local database at start, in
/// order: the system name and cluster where they are known, the first local
/// IP address (empty where there is none), and the version.
pub open spec fn init_entries(
    local_ips: Seq<Seq<char>>,
    system_name: Seq<char>,
    system_cluster: Seq<char>,
    version: Seq<char>,
) -> Seq<(Seq<char>, Seq<char>)> {
    let ip = if local_ips.len() > 0 {
        local_ips[0]
    } else {
        Seq::<char>::empty()
    };
    system_entries(system_name, system_cluster) + seq![("ip"@, ip), ("version"@, version)]
}

/// Law: the system information holds the system name exactly when it is
/// known and the cluster exactly when it is known, the name first, and nothing else.
pub proof fn lemma_system_entries_content(system_name: Seq<char>, system_cluster: Seq<char>)
    ensures
        system_entries(system_name, system_cluster).len() == (if system_name.len() > 0 {
            1int
        } else {
            0
        }) + (if system_cluster.len() > 0 {
            1int
        } else {
            0
        }),
        system_name.len() > 0 ==> system_entries(system_name, system_cluster)[0] == ("system"@, system_name),
        system_cluster.len() > 0 ==> system_entries(system_name, system_cluster).last() == (
            "cluster"@,
            system_cluster,
        ),
{
}

/// Law: the start entries are the system information (the name and the
/// cluster, each where it is known), then the first local IP address (empty
/// where there is none), then the version; a known cluster is always written.
pub proof fn lemma_init_entries_content(
    local_ips: Seq<Seq<char>>,
    system_name: Seq<char>,
    system_cluster: Seq<char>,
    version: Seq<char>,
)
    ensures
        ({
            let e = init_entries(local_ips, system_name, system_cluster, version);
            let n = system_entries(system_name, system_cluster).len();
            &&& e.len() == n + 2
            &&& e.take(n as int) == system_entries(system_name, system_cluster)
            &&& e[n as int] == ("ip"@, if local_ips.len() > 0 {
                local_ips[0]
            } else {
                Seq::<char>::empty()
            })
            &&& e[n as int + 1] == ("version"@, version)
            &&& (system_cluster.len() > 0 ==> e.contains(("cluster"@, system_cluster)))
            &&& (system_name.len() > 0 ==> e.contains(("system"@, system_name)))
        }),
{
    let e = init_entries(local_ips, system_name, system_cluster, version);
    let sys = system_entries(system_name, system_cluster);
    lemma_system_entries_content(system_name, system_cluster);
    assert(e.take(sys.len() as int) =~= sys);
    if system_cluster.len() > 0 {
        assert(e[sys.len() - 1] == sys.last());
    }
    if system_name.len() > 0 {
        assert(e[0] == sys[0]);
    }
}

/// The database writes that refresh the system information (see `system_entries`).
pub fn system_info_entries(system_name: &str, system_cluster: &str) -> (r: Vec<(String, String)>)
    ensures
        r@.map_values(|e: (String, String)| (e.0@, e.1@)) == system_entries(system_name@, system_cluster@),
{
    let mut r: Vec<(String, String)> = Vec::new();
    if !system_name.is_empty() {
        r.push(("system".to_owned(), system_name.to_owned()));
    }
    if !system_cluster.is_empty() {
        r.push(("cluster".to_owned(), system_cluster.to_owned()));
    }
    assert(r@.map_values(|e: (String, String)| (e.0@, e.1@)) =~= system_entries(system_name@, system_cluster@));
    r
}

/// The database writes of the agent's start (see `init_entries`).
pub fn start_init(local_ips: &Vec<String>, system_name: &str, system_cluster: &str, version: &str) -> (r: Vec<
    (String, String),
>)
    ensures
        r@.map_values(|e: (String, String)| (e.0@, e.1@)) == init_entries(
            local_ips@.map_values(|s: String| s@),
            system_name@,
            system_cluster@,
            version@,
        ),
{
    let ghost ips = local_ips@.map_values(|s: String| s@);
    let ip = if local_ips.len() > 0 {
        local_ips[0].clone()
    } else {
        String::new()
    };
    let mut r = system_info_entries(system_name, system_cluster);
    r.push(("ip".to_owned(), ip));
    r.push(("version".to_owned(), version.to_owned()));
    assert(r@.map_values(|e: (String, String)| (e.0@, e.1@)) =~= init_entries(
        ips,
        system_name@,
        system_cluster@,
        version@,
    ));
    r
}

} // verus!
