//! The docker command line that starts a backend from its adapter's
//! `container:` block, and the rule that a committed adapter pins its image.
//!
//! Shelling out to the docker CLI rather than using a client library: the
//! adapter already describes the container in the terms the CLI takes, and a
//! maintainer reproducing a finding runs the same command by hand.

use vstd::prelude::*;
use crate::backend::Container;
use crate::order::{sorted_items, strictly_sorted, chars_views};
use crate::text::signed_decimal;

verus! {

pub open spec fn container_name_of(backend: Seq<char>) -> Seq<char> {
    "specmatrix-"@ + backend
}

/// The container's name: after the backend, so a rerun replaces the
/// container rather than colliding with one left behind.
pub fn container_name(backend: &str) -> (r: String)
    ensures
        r@ == container_name_of(backend@),
{
    let mut out: Vec<char> = Vec::new();
    crate::text::push_str(&mut out, "specmatrix-");
    crate::text::push_str(&mut out, backend);
    crate::text::string_of(out.as_slice())
}

/// Where `c` last occurs in `s`.
pub open spec fn last_index_of(s: Seq<char>, c: char) -> Option<int>
    decreases s.len(),
{
    if s.len() == 0 {
        None
    } else if s.last() == c {
        Some(s.len() - 1)
    } else {
        last_index_of(s.drop_last(), c)
    }
}

/// The tag of an image reference: what follows the first `:` of its last
/// path segment, or nothing. A registry with a port carries a colon before
/// the last `/` and no tag at all.
pub open spec fn image_tag(image: Seq<char>) -> Seq<char> {
    let last = match last_index_of(image, '/') {
        Some(i) => image.skip(i + 1),
        None => image,
    };
    match crate::compare::index_of_char(last, ':') {
        Some(j) => last.skip(j + 1),
        None => Seq::empty(),
    }
}

pub open spec fn pinned(image: Seq<char>) -> bool {
    image_tag(image).len() > 0 && image_tag(image) != "latest"@
}

pub open spec fn unpinned_message(image: Seq<char>) -> Seq<char> {
    "adapter image "@ + image + " is not pinned; pin the exact tag you tested"@
}

fn last_index_of_exec(s: &[char], c: char) -> (r: Option<usize>)
    ensures
        r matches Some(i) ==> last_index_of(s@, c) == Some(i as int) && i < s@.len(),
        r is None ==> last_index_of(s@, c) is None,
{
    let mut i: usize = s.len();
    assert(s@.take(s@.len() as int) =~= s@);
    while i > 0
        invariant
            i <= s@.len(),
            last_index_of(s@, c) == last_index_of(s@.take(i as int), c),
        decreases i,
    {
        assert(s@.take(i as int).last() == s@[i - 1]);
        assert(s@.take(i as int).drop_last() =~= s@.take(i - 1));
        if s[i - 1] == c {
            return Some(i - 1);
        }
        i = i - 1;
    }
    None
}

/// A committed adapter must pin its tag. A floating tag makes every result a
/// claim about whatever the registry served that morning.
pub fn check_pinned(container: &Container) -> (r: Result<(), String>)
    ensures
        r is Ok <==> pinned(container.image@),
        r matches Err(e) ==> e@ == unpinned_message(container.image@),
{
    let cs = crate::text::chars_of(container.image.as_str());
    let last = match last_index_of_exec(cs.as_slice(), '/') {
        Some(i) => {
            let n = cs.len();
            assert(i < n);
            crate::text::slice_from(cs.as_slice(), i + 1)
        },
        None => crate::text::slice_from(cs.as_slice(), 0),
    };
    assert(cs@.skip(0) =~= cs@);
    let tag = match crate::compare::index_of_char_exec(last.as_slice(), ':') {
        Some(j) => {
            let n = last.len();
            assert(j < n);
            crate::text::slice_from(last.as_slice(), j + 1)
        },
        None => Vec::new(),
    };
    assert(tag@ == image_tag(container.image@));
    let latest = crate::text::chars_of("latest");
    if tag.len() == 0 || crate::text::chars_eq(tag.as_slice(), latest.as_slice()) {
        let mut out: Vec<char> = Vec::new();
        crate::text::push_str(&mut out, "adapter image ");
        crate::text::push_str(&mut out, container.image.as_str());
        crate::text::push_str(&mut out, " is not pinned; pin the exact tag you tested");
        return Err(crate::text::string_of(out.as_slice()));
    }
    Ok(())
}

// ---------------------------------------------------------------------------
// The run command
// ---------------------------------------------------------------------------

/// `p:p`, a port published on the same number inside and out.
pub open spec fn port_mapping(port: u16) -> Seq<char> {
    signed_decimal(port as int) + ":"@ + signed_decimal(port as int)
}

/// Where an inline config is written: a fixed file name in `dir`, joined as
/// a path joins a relative name.
pub open spec fn config_host_path(dir: Seq<char>, backend: Seq<char>) -> Seq<char> {
    let name = "specmatrix-"@ + backend + "-config.yaml"@;
    if dir.len() == 0 {
        name
    } else if dir.last() == '/' {
        dir + name
    } else {
        dir + "/"@ + name
    }
}

/// The names of the variables, as a set.
pub open spec fn env_names(env: Seq<(String, String)>) -> Set<Seq<char>> {
    env.map_values(|e: (String, String)| e.0@).to_set()
}

/// The value given to the variable `name`.
pub open spec fn env_value(env: Seq<(String, String)>, name: Seq<char>) -> Seq<char>
    decreases env.len(),
{
    if env.len() == 0 {
        Seq::empty()
    } else if env[0].0@ == name {
        env[0].1@
    } else {
        env_value(env.drop_first(), name)
    }
}

/// The `-e` pairs: every variable, in ascending order of name, so two runs of
/// one adapter produce the same command line.
pub open spec fn env_args(env: Seq<(String, String)>) -> Seq<Seq<char>> {
    let names = sorted_items(env_names(env));
    Seq::new(2 * names.len(), |i: int|
        if i % 2 == 0 {
            "-e"@
        } else {
            names[i / 2] + "="@ + env_value(env, names[i / 2])
        })
}

/// A `-p` pair for each extra port.
pub open spec fn port_args(ports: Seq<u16>) -> Seq<Seq<char>> {
    Seq::new(2 * ports.len(), |i: int|
        if i % 2 == 0 {
            "-p"@
        } else {
            port_mapping(ports[i / 2])
        })
}

/// The arguments `docker` is given: detached, named after the backend, the
/// main port and every extra port published, the inline config mounted at
/// the fixed path when there is one, every variable set, then the image and
/// after it the command.
pub open spec fn run_args(backend: Seq<char>, c: Container, config_dir: Seq<char>) -> Seq<Seq<char>> {
    seq!["run"@, "-d"@, "--name"@, container_name_of(backend), "-p"@, port_mapping(c.port)]
        + port_args(c.extra_ports@)
        + (if c.config is Some {
        seq!["-v"@, config_host_path(config_dir, backend) + ":/etc/specmatrix/config.yaml"@]
    } else {
        Seq::empty()
    })
        + env_args(c.env@)
        + seq![c.image@]
        + c.command@.map_values(|s: String| s@)
}

pub open spec fn arg_views(v: Seq<String>) -> Seq<Seq<char>> {
    v.map_values(|s: String| s@)
}

fn push_arg(args: &mut Vec<String>, a: &[char])
    ensures
        arg_views(final(args)@) == arg_views(old(args)@).push(a@),
{
    let ghost before = arg_views(args@);
    args.push(crate::text::string_of(a));
    assert(arg_views(args@) =~= before.push(a@));
}

fn push_lit(args: &mut Vec<String>, a: &str)
    ensures
        arg_views(final(args)@) == arg_views(old(args)@).push(a@),
{
    let cs = crate::text::chars_of(a);
    push_arg(args, cs.as_slice());
}

fn port_text(port: u16) -> (r: Vec<char>)
    ensures
        r@ == port_mapping(port),
{
    let mut out = crate::text::u64_text(port as u64);
    out.push(':');
    let mut again = crate::text::u64_text(port as u64);
    out.append(&mut again);
    proof {
        reveal_strlit(":");
    }
    assert(out@ =~= port_mapping(port));
    out
}

fn value_of(env: &Vec<(String, String)>, name: &[char]) -> (r: Vec<char>)
    ensures
        r@ == env_value(env@, name@),
{
    let mut i: usize = 0;
    assert(env@.skip(0) =~= env@);
    while i < env.len()
        invariant
            i <= env@.len(),
            env_value(env@, name@) == env_value(env@.skip(i as int), name@),
        decreases env@.len() - i,
    {
        assert(env@.skip(i as int)[0] == env@[i as int]);
        assert(env@.skip(i as int).drop_first() =~= env@.skip(i + 1));
        let k = crate::text::chars_of(env[i].0.as_str());
        if crate::text::chars_eq(k.as_slice(), name) {
            return crate::text::chars_of(env[i].1.as_str());
        }
        i = i + 1;
    }
    Vec::new()
}

/// The names of the variables, ascending, each once.
fn sorted_names(env: &Vec<(String, String)>) -> (r: Vec<Vec<char>>)
    ensures
        chars_views(r@) == sorted_items(env_names(env@)),
{
    let mut names: Vec<Vec<char>> = Vec::new();
    let mut i: usize = 0;
    let ghost all = env@.map_values(|e: (String, String)| e.0@);
    assert(chars_views(names@).to_set() =~= all.take(0).to_set());
    while i < env.len()
        invariant
            i <= env@.len(),
            all == env@.map_values(|e: (String, String)| e.0@),
            strictly_sorted(chars_views(names@)),
            chars_views(names@).to_set() == all.take(i as int).to_set(),
        decreases env@.len() - i,
    {
        let k = crate::text::chars_of(env[i].0.as_str());
        crate::order::insert_sorted(&mut names, k);
        assert(all.take(i + 1) =~= all.take(i as int).push(all[i as int]));
        proof {
            crate::order::lemma_push_to_set(all.take(i as int), all[i as int]);
        }
        i = i + 1;
    }
    assert(all.take(env@.len() as int) =~= all);
    proof {
        crate::order::lemma_sorted_items(chars_views(names@));
    }
    names
}

/// Where an inline config is written before the container starts.
pub fn config_path(config_dir: &str, backend: &str) -> (r: String)
    ensures
        r@ == config_host_path(config_dir@, backend@),
{
    let mut path: Vec<char> = Vec::new();
    let dir = crate::text::chars_of(config_dir);
    path.extend_from_slice(dir.as_slice());
    if dir.len() > 0 && dir[dir.len() - 1] != '/' {
        path.push('/');
    }
    crate::text::push_str(&mut path, "specmatrix-");
    crate::text::push_str(&mut path, backend);
    crate::text::push_str(&mut path, "-config.yaml");
    proof {
        if dir@.len() > 0 && dir@.last() != '/' {
            assert(path@ =~= dir@ + "/"@ + ("specmatrix-"@ + backend@ + "-config.yaml"@)) by {
                reveal_strlit("/");
            }
        } else {
            assert(path@ =~= dir@ + ("specmatrix-"@ + backend@ + "-config.yaml"@));
        }
    }
    crate::text::string_of(path.as_slice())
}

/// The arguments of `docker run` for this backend's container. `config_dir`
/// is the directory an inline config is written to.
pub fn docker_run_args(backend: &str, container: &Container, config_dir: &str) -> (r: Vec<String>)
    ensures
        arg_views(r@) == run_args(backend@, *container, config_dir@),
{
    let mut args: Vec<String> = Vec::new();
    push_lit(&mut args, "run");
    push_lit(&mut args, "-d");
    push_lit(&mut args, "--name");
    let name = container_name(backend);
    push_lit(&mut args, name.as_str());
    push_lit(&mut args, "-p");
    let main = port_text(container.port);
    push_arg(&mut args, main.as_slice());
    let ghost head = arg_views(args@);
    assert(head =~= seq!["run"@, "-d"@, "--name"@, container_name_of(backend@), "-p"@, port_mapping(container.port)]);
    let mut i: usize = 0;
    while i < container.extra_ports.len()
        invariant
            i <= container.extra_ports@.len(),
            arg_views(args@) == head + port_args(container.extra_ports@.take(i as int)),
        decreases container.extra_ports@.len() - i,
    {
        let ghost before = arg_views(args@);
        push_lit(&mut args, "-p");
        let p = port_text(container.extra_ports[i]);
        push_arg(&mut args, p.as_slice());
        assert(port_args(container.extra_ports@.take(i + 1)) =~= port_args(container.extra_ports@.take(i as int)).push(
            "-p"@,
        ).push(port_mapping(container.extra_ports@[i as int])));
        i = i + 1;
    }
    assert(container.extra_ports@.take(container.extra_ports@.len() as int) =~= container.extra_ports@);
    let ghost with_ports = arg_views(args@);
    if container.config.is_some() {
        push_lit(&mut args, "-v");
        let path = config_path(config_dir, backend);
        let mut mount = crate::text::chars_of(path.as_str());
        crate::text::push_str(&mut mount, ":/etc/specmatrix/config.yaml");
        assert(mount@ =~= config_host_path(config_dir@, backend@) + ":/etc/specmatrix/config.yaml"@);
        push_arg(&mut args, mount.as_slice());
    }
    let ghost with_mount = arg_views(args@);
    assert(with_mount =~= with_ports + (if container.config is Some {
        seq!["-v"@, config_host_path(config_dir@, backend@) + ":/etc/specmatrix/config.yaml"@]
    } else {
        Seq::<Seq<char>>::empty()
    }));
    let names = sorted_names(&container.env);
    let ghost sorted = sorted_items(env_names(container.env@));
    let mut k: usize = 0;
    while k < names.len()
        invariant
            k <= names@.len(),
            chars_views(names@) == sorted,
            sorted == sorted_items(env_names(container.env@)),
            arg_views(args@) == with_mount + env_args(container.env@).take(2 * k),
            env_args(container.env@).len() == 2 * names@.len(),
        decreases names@.len() - k,
    {
        push_lit(&mut args, "-e");
        let mut pair: Vec<char> = Vec::new();
        pair.extend_from_slice(names[k].as_slice());
        pair.push('=');
        let v = value_of(&container.env, names[k].as_slice());
        pair.extend_from_slice(v.as_slice());
        assert(sorted[k as int] == names@[k as int]@);
        proof {
            reveal_strlit("=");
            let ea = env_args(container.env@);
            assert((2 * k) % 2 == 0 && (2 * k) / 2 == k as int);
            assert((2 * k + 1) % 2 == 1 && (2 * k + 1) / 2 == k as int);
            assert(sorted.len() == names@.len());
            assert(2 * k + 1 < ea.len());
            assert(ea[2 * k] == "-e"@);
            assert(ea[2 * k + 1] == sorted[k as int] + "="@ + env_value(container.env@, sorted[k as int]));
            assert(pair@ =~= names@[k as int]@ + "="@ + env_value(container.env@, names@[k as int]@));
            assert(ea[2 * k + 1] == pair@);
        }
        push_arg(&mut args, pair.as_slice());
        assert(env_args(container.env@).take(2 * k + 2) =~= env_args(container.env@).take(2 * k).push("-e"@).push(
            pair@,
        ));
        k = k + 1;
    }
    assert(env_args(container.env@).take(2 * k) =~= env_args(container.env@));
    push_lit(&mut args, container.image.as_str());
    let ghost with_image = arg_views(args@);
    let mut j: usize = 0;
    while j < container.command.len()
        invariant
            j <= container.command@.len(),
            arg_views(args@) == with_image + container.command@.take(j as int).map_values(|s: String| s@),
        decreases container.command@.len() - j,
    {
        push_lit(&mut args, container.command[j].as_str());
        assert(container.command@.take(j + 1).map_values(|s: String| s@) =~= container.command@.take(
            j as int,
        ).map_values(|s: String| s@).push(container.command@[j as int]@));
        j = j + 1;
    }
    assert(container.command@.take(container.command@.len() as int) =~= container.command@);
    assert(arg_views(args@) =~= run_args(backend@, *container, config_dir@));
    args
}

/// The URL a readiness probe asks: the path of `METHOD /path`, used as
/// written when it is an absolute URL (a store whose readiness is served on
/// another port than the one the container publishes first), otherwise
/// appended to the base URL.
pub open spec fn ready_url_of(base_url: Seq<char>, request: Seq<char>) -> Result<Seq<char>, Seq<char>> {
    match crate::backend::request_parts(request) {
        Err(_) => Err("ready.request must be `METHOD /path`, got "@ + crate::text::debug_quoted(request)),
        Ok((_, path)) => if crate::json::strip_prefix(path, "http://"@) is Some || crate::json::strip_prefix(
            path,
            "https://"@,
        ) is Some {
            Ok(path)
        } else {
            Ok(base_url + path)
        },
    }
}

/// The URL a readiness probe asks, or why the probe is malformed.
pub fn ready_url(base_url: &str, request: &str) -> (r: Result<String, String>)
    ensures
        match r {
            Ok(u) => ready_url_of(base_url@, request@) == Ok::<Seq<char>, Seq<char>>(u@),
            Err(e) => ready_url_of(base_url@, request@) == Err::<Seq<char>, Seq<char>>(e@),
        },
{
    let req = crate::backend::Request {
        request: crate::text::string_of(crate::text::chars_of(request).as_slice()),
        headers: Vec::new(),
        params: Vec::new(),
        body: None,
    };
    match req.parts() {
        Err(_) => {
            let mut out = crate::text::chars_of("ready.request must be `METHOD /path`, got ");
            let q = crate::text::quote_debug(crate::text::chars_of(request).as_slice());
            out.extend_from_slice(q.as_slice());
            assert(out@ =~= "ready.request must be `METHOD /path`, got "@ + crate::text::debug_quoted(request@));
            Err(crate::text::string_of(out.as_slice()))
        },
        Ok((_, path)) => {
            if crate::json::strip_prefix_exec(path.as_str(), "http://").is_some()
                || crate::json::strip_prefix_exec(path.as_str(), "https://").is_some() {
                Ok(path)
            } else {
                let mut out = crate::text::chars_of(base_url);
                crate::text::push_str(&mut out, path.as_str());
                assert(out@ =~= base_url@ + path@);
                Ok(crate::text::string_of(out.as_slice()))
            }
        },
    }
}

} // verus!
