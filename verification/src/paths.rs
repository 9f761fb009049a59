//! Well-known socket paths, rooted at the runtime directory:
//! `$XDG_RUNTIME_DIR`, or `/tmp` when it is unset (reading the
//! environment is the caller's part).

use vstd::prelude::*;

verus! {

/// The `HYPRLAND_INSTANCE_SIGNATURE` value set for spawned children, so
/// that Velo-shell finds [`hypr_event_socket_path`].
pub const HYPRLAND_INSTANCE_SIGNATURE: &'static str = "velo-de";

/// `base` extended by the relative component `comp`, with a `/` between
/// them unless `base` is empty or already ends in one.
pub open spec fn path_join(base: Seq<char>, comp: Seq<char>) -> Seq<char> {
    if base.len() > 0 && base.last() != '/' {
        base + seq!['/'] + comp
    } else {
        base + comp
    }
}

/// Extend `path` by the relative component `comp`.
fn push_component(path: &mut String, comp: &str)
    ensures
        final(path)@ == path_join(old(path)@, comp@),
{
    let n = path.as_str().unicode_len();
    if n > 0 && path.as_str().get_char(n - 1) != '/' {
        proof {
            reveal_strlit("/");
        }
        path.append("/");
        proof {
            assert(old(path)@.last() == old(path)@[n - 1]);
        }
    }
    path.append(comp);
    proof {
        if n > 0 && old(path)@.last() != '/' {
            assert(path@ =~= old(path)@ + seq!['/'] + comp@);
        }
    }
}

/// The runtime directory: `$XDG_RUNTIME_DIR` as given, or `/tmp` when it
/// is unset.
pub open spec fn runtime_base(xdg_runtime_dir: Option<Seq<char>>) -> Seq<char> {
    match xdg_runtime_dir {
        Some(d) => d,
        None => "/tmp"@,
    }
}

/// The runtime directory, from the value of `XDG_RUNTIME_DIR` (`None`
/// when it is unset).
pub fn runtime_dir(xdg_runtime_dir: Option<&str>) -> (p: String)
    ensures
        p@ == runtime_base(match xdg_runtime_dir {
            Some(d) => Some(d@),
            None => None,
        }),
{
    match xdg_runtime_dir {
        Some(d) => String::from_str(d),
        None => String::from_str("/tmp"),
    }
}

/// `velo-de`'s native IPC socket, `<runtime dir>/velo-de/velo-de.sock`,
/// given the value of `XDG_RUNTIME_DIR` (`None` when it is unset).
pub fn socket_path(xdg_runtime_dir: Option<&str>) -> (p: String)
    ensures
        p@ == path_join(
            path_join(
                runtime_base(match xdg_runtime_dir {
                    Some(d) => Some(d@),
                    None => None,
                }),
                "velo-de"@,
            ),
            "velo-de.sock"@,
        ),
{
    let mut p = runtime_dir(xdg_runtime_dir);
    push_component(&mut p, "velo-de");
    push_component(&mut p, "velo-de.sock");
    p
}

/// The Hyprland-event-socket-compatible path,
/// `<runtime dir>/hypr/velo-de/.socket2.sock`, read verbatim by
/// Velo-shell, given the value of `XDG_RUNTIME_DIR` (`None` when unset).
pub fn hypr_event_socket_path(xdg_runtime_dir: Option<&str>) -> (p: String)
    ensures
        p@ == path_join(
            path_join(
                path_join(
                    runtime_base(match xdg_runtime_dir {
                        Some(d) => Some(d@),
                        None => None,
                    }),
                    "hypr"@,
                ),
                HYPRLAND_INSTANCE_SIGNATURE@,
            ),
            ".socket2.sock"@,
        ),
{
    let mut p = runtime_dir(xdg_runtime_dir);
    push_component(&mut p, "hypr");
    push_component(&mut p, HYPRLAND_INSTANCE_SIGNATURE);
    push_component(&mut p, ".socket2.sock");
    p
}

/// Both sockets live in their own directories under the runtime
/// directory `dir` (given without a trailing `/`):
/// `dir/velo-de/velo-de.sock` and `dir/hypr/velo-de/.socket2.sock`; with
/// `XDG_RUNTIME_DIR` unset, `dir` is `/tmp`.
pub proof fn law_sockets_under_runtime_dir(dir: Seq<char>)
    requires
        dir.len() > 0,
        dir.last() != '/',
    ensures
        path_join(path_join(dir, "velo-de"@), "velo-de.sock"@) == dir + "/velo-de/velo-de.sock"@,
        path_join(path_join(path_join(dir, "hypr"@), HYPRLAND_INSTANCE_SIGNATURE@), ".socket2.sock"@) == dir
            + "/hypr/velo-de/.socket2.sock"@,
        runtime_base(None) == "/tmp"@,
{
    reveal_strlit("velo-de");
    reveal_strlit("velo-de.sock");
    reveal_strlit("/velo-de/velo-de.sock");
    reveal_strlit("hypr");
    reveal_strlit(".socket2.sock");
    reveal_strlit("/hypr/velo-de/.socket2.sock");
    reveal_strlit("/tmp");
    let a = path_join(dir, "velo-de"@);
    assert(a.last() != '/');
    assert(path_join(a, "velo-de.sock"@) =~= dir + "/velo-de/velo-de.sock"@);
    let b = path_join(dir, "hypr"@);
    assert(b.last() != '/');
    let c = path_join(b, HYPRLAND_INSTANCE_SIGNATURE@);
    assert(c.last() != '/');
    assert(path_join(c, ".socket2.sock"@) =~= dir + "/hypr/velo-de/.socket2.sock"@);
}

} // verus!
