//! Ready-made hooks for common applications.
use crate::snapshot::hooks::command_of;
use crate::snapshot::hooks::hook_applies;
use crate::snapshot::hooks::ApplicationHook;
use crate::snapshot::hooks::HookMatch;
use crate::snapshot::hooks::HookPhase;
use crate::snapshot::hooks::HostFacts;
use crate::text::concat2;
use crate::text::concat3;
use crate::text::copy_text;
use crate::text::texts;
use vstd::prelude::*;

verus! {

/// Whether a hook has the given name, service, commands and timeout, and nothing else.
pub open spec fn is_hook(
    h: ApplicationHook,
    name: Seq<char>,
    service: Seq<char>,
    pre: Seq<char>,
    post: Seq<char>,
    timeout: u64,
) -> bool {
    &&& h.name@ == name
    &&& h.match_rule matches Some(rule)
    &&& rule.service matches Some(s)
    &&& s@ == service
    &&& rule.process is None
    &&& rule.path is None
    &&& h.pre_snapshot@ == pre
    &&& h.post_snapshot@ == post
    &&& h.timeout_secs == Some(timeout)
    &&& h.env@.len() == 0
}

fn hook(name: &str, svc: &str, pre: &str, post: &str, timeout: u64) -> (out: ApplicationHook)
    ensures
        is_hook(out, name@, svc@, pre@, post@, timeout),
{
    ApplicationHook {
        name: copy_text(name),
        match_rule: Some(HookMatch { service: Some(copy_text(svc)), process: None, path: None }),
        pre_snapshot: copy_text(pre),
        post_snapshot: copy_text(post),
        timeout_secs: Some(timeout),
        env: Vec::new(),
    }
}

pub open spec fn is_postgres(h: ApplicationHook) -> bool {
    is_hook(
        h,
        "postgres"@,
        "postgresql"@,
        "psql -X -At -c \"SELECT pg_backup_start('lazarus', false)\""@,
        "psql -X -At -c \"SELECT pg_backup_stop(false)\""@,
        300,
    )
}

/// PostgreSQL: its own backup mode.
pub fn postgres() -> (out: ApplicationHook)
    ensures
        is_postgres(out),
        out.name@ == "postgres"@,
        out.match_rule matches Some(rule) && rule.service matches Some(service) && service@
            == "postgresql"@,
        out.pre_snapshot@ == "psql -X -At -c \"SELECT pg_backup_start('lazarus', false)\""@,
        out.post_snapshot@ == "psql -X -At -c \"SELECT pg_backup_stop(false)\""@,
        out.timeout_secs == Some(300u64),
{
    hook(
        "postgres",
        "postgresql",
        "psql -X -At -c \"SELECT pg_backup_start('lazarus', false)\"",
        "psql -X -At -c \"SELECT pg_backup_stop(false)\"",
        300,
    )
}

pub open spec fn is_mysql(h: ApplicationHook) -> bool {
    is_hook(
        h,
        "mysql"@,
        "mysql"@,
        "mysql -e 'FLUSH TABLES WITH READ LOCK; FLUSH LOGS;'"@,
        "mysql -e 'UNLOCK TABLES;'"@,
        300,
    )
}

/// MySQL and MariaDB: a read lock on all tables.
pub fn mysql() -> (out: ApplicationHook)
    ensures
        is_mysql(out),
        out.name@ == "mysql"@,
        out.match_rule matches Some(rule) && rule.service matches Some(service) && service@
            == "mysql"@,
        out.pre_snapshot@ == "mysql -e 'FLUSH TABLES WITH READ LOCK; FLUSH LOGS;'"@,
        out.post_snapshot@ == "mysql -e 'UNLOCK TABLES;'"@,
        out.timeout_secs == Some(300u64),
{
    hook(
        "mysql",
        "mysql",
        "mysql -e 'FLUSH TABLES WITH READ LOCK; FLUSH LOGS;'",
        "mysql -e 'UNLOCK TABLES;'",
        300,
    )
}

pub open spec fn is_mongodb(h: ApplicationHook) -> bool {
    is_hook(
        h,
        "mongodb"@,
        "mongod"@,
        "mongosh --quiet --eval 'db.fsyncLock()'"@,
        "mongosh --quiet --eval 'db.fsyncUnlock()'"@,
        300,
    )
}

/// MongoDB: its lock for backups.
pub fn mongodb() -> (out: ApplicationHook)
    ensures
        is_mongodb(out),
        out.name@ == "mongodb"@,
        out.match_rule matches Some(rule) && rule.service matches Some(service) && service@
            == "mongod"@,
        out.pre_snapshot@ == "mongosh --quiet --eval 'db.fsyncLock()'"@,
        out.post_snapshot@ == "mongosh --quiet --eval 'db.fsyncUnlock()'"@,
        out.timeout_secs == Some(300u64),
{
    hook(
        "mongodb",
        "mongod",
        "mongosh --quiet --eval 'db.fsyncLock()'",
        "mongosh --quiet --eval 'db.fsyncUnlock()'",
        300,
    )
}

pub open spec fn is_redis(h: ApplicationHook) -> bool {
    is_hook(h, "redis"@, "redis-server"@, "redis-cli SAVE"@, "true"@, 300)
}

/// Redis: the data is written to disk; there is nothing to do afterwards.
pub fn redis() -> (out: ApplicationHook)
    ensures
        is_redis(out),
        out.name@ == "redis"@,
        out.match_rule matches Some(rule) && rule.service matches Some(service) && service@
            == "redis-server"@,
        out.pre_snapshot@ == "redis-cli SAVE"@,
        out.post_snapshot@ == "true"@,
        out.timeout_secs == Some(300u64),
{
    hook("redis", "redis-server", "redis-cli SAVE", "true", 300)
}

/// libvirt: the guest agent freezes the file systems of a guest. A guest without the agent is
/// suspended as a whole, and resumed afterwards.
pub fn libvirt(domain: &str) -> (out: ApplicationHook)
    ensures
        is_hook(
            out,
            "libvirt:"@ + domain@,
            "libvirtd"@,
            "virsh domfsfreeze "@ + domain@ + " || virsh suspend "@ + domain@,
            "virsh domfsthaw "@ + domain@ + " || virsh resume "@ + domain@,
            120,
        ),
        out.pre_snapshot@ == "virsh domfsfreeze "@ + domain@ + " || virsh suspend "@ + domain@,
        out.post_snapshot@ == "virsh domfsthaw "@ + domain@ + " || virsh resume "@ + domain@,
{
    let name = concat2("libvirt:", domain);
    let freeze = concat3("virsh domfsfreeze ", domain, " || virsh suspend ");
    let thaw = concat3("virsh domfsthaw ", domain, " || virsh resume ");
    let pre = concat2(freeze.as_str(), domain);
    let post = concat2(thaw.as_str(), domain);
    hook(name.as_str(), "libvirtd", pre.as_str(), post.as_str(), 120)
}

pub open spec fn is_docker(h: ApplicationHook) -> bool {
    is_hook(
        h,
        "docker"@,
        "docker"@,
        "for c in $(docker ps -q); do docker pause $c; done"@,
        "for c in $(docker ps -q --filter status=paused); do docker unpause $c; done"@,
        300,
    )
}

/// Docker: all running containers are paused.
pub fn docker() -> (out: ApplicationHook)
    ensures
        is_docker(out),
        out.name@ == "docker"@,
        out.match_rule matches Some(rule) && rule.service matches Some(service) && service@
            == "docker"@,
        out.pre_snapshot@ == "for c in $(docker ps -q); do docker pause $c; done"@,
        out.post_snapshot@ == "for c in $(docker ps -q --filter status=paused); do docker unpause $c; done"@,
        out.timeout_secs == Some(300u64),
{
    hook(
        "docker",
        "docker",
        "for c in $(docker ps -q); do docker pause $c; done",
        "for c in $(docker ps -q --filter status=paused); do docker unpause $c; done",
        300,
    )
}

/// Whether a list holds the ready-made hooks that need no further setting.
pub open spec fn is_all(list: Seq<ApplicationHook>) -> bool {
    &&& list.len() == 5
    &&& is_postgres(list[0])
    &&& is_mysql(list[1])
    &&& is_mongodb(list[2])
    &&& is_redis(list[3])
    &&& is_docker(list[4])
}

/// The ready-made hooks that need no further setting.
pub fn all() -> (out: Vec<ApplicationHook>)
    ensures
        is_all(out@),
{
    let mut out: Vec<ApplicationHook> = Vec::new();
    out.push(postgres());
    out.push(mysql());
    out.push(mongodb());
    out.push(redis());
    out.push(docker());
    out
}

/// Each ready-made hook freezes its application before the snapshot and thaws it afterwards.
pub proof fn ready_made_hooks_freeze_and_thaw(hook: ApplicationHook)
    ensures
        is_postgres(hook) ==> {
            &&& hook.name@ == "postgres"@
            &&& hook.match_rule matches Some(rule) && rule.service matches Some(service)
                && service@ == "postgresql"@
            &&& command_of(hook, HookPhase::Pre) == "psql -X -At -c \"SELECT pg_backup_start('lazarus', false)\""@
            &&& command_of(hook, HookPhase::Post) == "psql -X -At -c \"SELECT pg_backup_stop(false)\""@
            &&& hook.seconds() == 300
        },
        is_mysql(hook) ==> {
            &&& hook.name@ == "mysql"@
            &&& hook.match_rule matches Some(rule) && rule.service matches Some(service)
                && service@ == "mysql"@
            &&& command_of(hook, HookPhase::Pre) == "mysql -e 'FLUSH TABLES WITH READ LOCK; FLUSH LOGS;'"@
            &&& command_of(hook, HookPhase::Post) == "mysql -e 'UNLOCK TABLES;'"@
            &&& hook.seconds() == 300
        },
        is_mongodb(hook) ==> {
            &&& hook.name@ == "mongodb"@
            &&& hook.match_rule matches Some(rule) && rule.service matches Some(service)
                && service@ == "mongod"@
            &&& command_of(hook, HookPhase::Pre) == "mongosh --quiet --eval 'db.fsyncLock()'"@
            &&& command_of(hook, HookPhase::Post) == "mongosh --quiet --eval 'db.fsyncUnlock()'"@
            &&& hook.seconds() == 300
        },
        is_redis(hook) ==> {
            &&& hook.name@ == "redis"@
            &&& hook.match_rule matches Some(rule) && rule.service matches Some(service)
                && service@ == "redis-server"@
            &&& command_of(hook, HookPhase::Pre) == "redis-cli SAVE"@
            &&& command_of(hook, HookPhase::Post) == "true"@
            &&& hook.seconds() == 300
        },
        is_docker(hook) ==> {
            &&& hook.name@ == "docker"@
            &&& hook.match_rule matches Some(rule) && rule.service matches Some(service)
                && service@ == "docker"@
            &&& command_of(hook, HookPhase::Pre) == "for c in $(docker ps -q); do docker pause $c; done"@
            &&& command_of(hook, HookPhase::Post) == "for c in $(docker ps -q --filter status=paused); do docker unpause $c; done"@
            &&& hook.seconds() == 300
        },
{
}

/// The ready-made hooks in their order.
pub proof fn all_ready_made_hooks(list: Seq<ApplicationHook>)
    requires
        is_all(list),
    ensures
        list.len() == 5,
        list[0].name@ == "postgres"@,
        list[1].name@ == "mysql"@,
        list[2].name@ == "mongodb"@,
        list[3].name@ == "redis"@,
        list[4].name@ == "docker"@,
{
}

/// A ready-made hook applies exactly where the service of its application runs, and hands its
/// commands no variables.
pub proof fn ready_made_hooks_go_by_services(hook: ApplicationHook, host: HostFacts)
    ensures
        is_postgres(hook) ==> hook.env@.len() == 0 && (hook_applies(hook, host) <==> texts(
            host.services@,
        ).contains("postgresql"@)),
        is_mysql(hook) ==> hook.env@.len() == 0 && (hook_applies(hook, host) <==> texts(
            host.services@,
        ).contains("mysql"@)),
        is_mongodb(hook) ==> hook.env@.len() == 0 && (hook_applies(hook, host) <==> texts(
            host.services@,
        ).contains("mongod"@)),
        is_redis(hook) ==> hook.env@.len() == 0 && (hook_applies(hook, host) <==> texts(
            host.services@,
        ).contains("redis-server"@)),
        is_docker(hook) ==> hook.env@.len() == 0 && (hook_applies(hook, host) <==> texts(
            host.services@,
        ).contains("docker"@)),
{
}

} // verus!
