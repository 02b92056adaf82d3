//! Reading the output of read-only git plumbing: `rev-parse`,
//! `symbolic-ref`, `status --porcelain=v1 -z` and `remote -v`. Running
//! git is the caller's part; what each run printed is handed in here.

use vstd::prelude::*;
use crate::observer::snapshot::RemoteInfo;
use crate::observer::iso_parse::{find_first, lemma_find_from_range};
use crate::text::find_from;
use crate::text::{chars_of, push_str, str_eq, string_of, trim_chars, trim_spec};

verus! {

/// What one git invocation gave: whether it exited successfully, and the
/// bytes it wrote to standard output and standard error.
#[derive(Debug)]
pub struct GitOutput {
    pub success: bool,
    pub stdout: Vec<u8>,
    pub stderr: Vec<u8>,
}

/// The text `String::from_utf8_lossy` makes of `bytes`.
pub uninterp spec fn lossy_text(bytes: Seq<u8>) -> Seq<char>;

/// Decodes bytes as UTF-8, each invalid sequence becoming U+FFFD, as
/// `String::from_utf8_lossy` does.
#[verifier::external_body]
pub(crate) fn utf8_lossy(bytes: &[u8]) -> (r: String)
    ensures
        r@ == lossy_text(bytes@),
{
    String::from_utf8_lossy(bytes).into_owned()
}

/// `bytes` decoded as `String::from_utf8_lossy` does, then trimmed.
pub fn trimmed_lossy(bytes: &[u8]) -> (r: String)
    ensures
        r@ == trim_spec(lossy_text(bytes@)),
{
    let text = utf8_lossy(bytes);
    let chars = chars_of(text.as_str());
    let t = trim_chars(&chars);
    string_of(t.as_slice())
}

/// The trimmed text of a run's standard output.
pub fn stdout_trimmed(out: &GitOutput) -> (r: String)
    ensures
        r@ == trim_spec(lossy_text(out.stdout@)),
{
    trimmed_lossy(out.stdout.as_slice())
}

/// Whether `git rev-parse --is-inside-work-tree` said the path is inside
/// a working tree; a run that could not start says no.
pub fn is_git_repo(run: &Result<GitOutput, String>) -> (r: bool)
    ensures
        r == (run matches Ok(out) && out.success && trim_spec(lossy_text(out.stdout@)) == "true"@),
{
    match run {
        Ok(out) => {
            if !out.success {
                return false;
            }
            let t = stdout_trimmed(out);
            str_eq(t.as_str(), "true")
        },
        Err(_) => false,
    }
}

/// `(branch, is_detached)` from `git symbolic-ref --short HEAD`: the
/// trimmed output when it succeeded, detached when it failed (that
/// failure is the detached-HEAD signal, not an error).
pub fn read_branch(run: &Result<GitOutput, String>) -> (r: Result<(Option<String>, bool), String>)
    ensures
        match run {
            Err(e) => r matches Err(e2) && e2@ == e@,
            Ok(out) => if out.success {
                r matches Ok((Some(b), d)) && b@ == trim_spec(lossy_text(out.stdout@)) && !d
            } else {
                r matches Ok((None, d)) && d
            },
        },
{
    match run {
        Err(e) => Err(e.clone()),
        Ok(out) => {
            if out.success {
                Ok((Some(stdout_trimmed(out)), false))
            } else {
                Ok((None, true))
            }
        },
    }
}

/// The head commit from `git rev-parse HEAD`: none when the run failed,
/// which is a repository with no commits yet, not an error.
pub fn read_head_sha(run: &Result<GitOutput, String>) -> (r: Result<Option<String>, String>)
    ensures
        match run {
            Err(e) => r matches Err(e2) && e2@ == e@,
            Ok(out) => if out.success {
                r matches Ok(Some(h)) && h@ == trim_spec(lossy_text(out.stdout@))
            } else {
                r matches Ok(None)
            },
        },
{
    match run {
        Err(e) => Err(e.clone()),
        Ok(out) => {
            if out.success {
                Ok(Some(stdout_trimmed(out)))
            } else {
                Ok(None)
            }
        },
    }
}

/// The pieces of `b` between zero bytes, as `split(|&b| b == 0)` gives
/// them (an empty piece after a final zero included).
pub open spec fn nul_fields(b: Seq<u8>) -> Seq<Seq<u8>>
    decreases b.len(),
{
    if b.len() == 0 {
        seq![Seq::empty()]
    } else {
        let rest = nul_fields(b.drop_last());
        if b.last() == 0 {
            rest.push(Seq::empty())
        } else {
            rest.update(rest.len() - 1, rest.last().push(b.last()))
        }
    }
}

proof fn lemma_nul_fields_len(b: Seq<u8>)
    ensures
        nul_fields(b).len() >= 1,
    decreases b.len(),
{
    if b.len() > 0 {
        lemma_nul_fields_len(b.drop_last());
    }
}

/// The status entries: the zero-separated fields without the empty one
/// a final zero leaves.
pub open spec fn status_fields(b: Seq<u8>) -> Seq<Seq<u8>> {
    let f = nul_fields(b);
    if f.last().len() == 0 {
        f.drop_last()
    } else {
        f
    }
}

/// Whether an entry's two-letter status code marks a rename or a copy,
/// whose entry is followed by a field holding the old path.
pub open spec fn two_path_code(entry: Seq<u8>) -> bool {
    entry[0] == 82u8 || entry[1] == 82u8 || entry[0] == 67u8 || entry[1] == 67u8
}

/// The changed paths the entries `fields[k..]` describe: an entry shorter
/// than three bytes is skipped; a rename or copy reads `old -> new` when
/// its old path follows, else just the new path.
pub open spec fn changed_from(fields: Seq<Seq<u8>>, k: int) -> Seq<Seq<char>>
    decreases fields.len() - k,
{
    if k < 0 || k >= fields.len() {
        Seq::empty()
    } else {
        let entry = fields[k];
        if entry.len() < 3 {
            changed_from(fields, k + 1)
        } else {
            let new_path = lossy_text(entry.skip(3));
            if two_path_code(entry) && k + 1 < fields.len() {
                seq![lossy_text(fields[k + 1]) + " -> "@ + new_path] + changed_from(fields, k + 2)
            } else {
                seq![new_path] + changed_from(fields, k + 1)
            }
        }
    }
}

/// What `git status --porcelain=v1 -z` output says: whether anything
/// changed, and the changed paths.
pub open spec fn dirty_spec(stdout: Seq<u8>) -> Seq<Seq<char>> {
    changed_from(status_fields(stdout), 0)
}

/// The bytes `b[lo..hi]`.
fn byte_range(b: &Vec<u8>, lo: usize, hi: usize) -> (r: Vec<u8>)
    requires
        lo <= hi <= b@.len(),
    ensures
        r@ == b@.subrange(lo as int, hi as int),
{
    let mut r: Vec<u8> = Vec::new();
    let mut k = lo;
    while k < hi
        invariant
            lo <= k <= hi <= b@.len(),
            r@ == b@.subrange(lo as int, k as int),
        decreases hi - k,
    {
        r.push(b[k]);
        k = k + 1;
        assert(r@ =~= b@.subrange(lo as int, k as int));
    }
    r
}

/// The zero-separated fields of `b`, without the empty one a final zero
/// leaves.
fn split_status_fields(b: &Vec<u8>) -> (r: Vec<Vec<u8>>)
    ensures
        r@.map_values(|f: Vec<u8>| f@) == status_fields(b@),
{
    let ghost bv = b@;
    let mut fields: Vec<Vec<u8>> = Vec::new();
    let mut start: usize = 0;
    let mut i: usize = 0;
    assert(bv.take(0) =~= Seq::<u8>::empty());
    while i < b.len()
        invariant
            bv == b@,
            start <= i <= bv.len(),
            nul_fields(bv.take(i as int)) == fields@.map_values(|f: Vec<u8>| f@).push(
                bv.subrange(start as int, i as int),
            ),
        decreases bv.len() - i,
    {
        let ghost t0 = bv.take(i as int);
        let ghost t1 = bv.take(i + 1);
        assert(t1.drop_last() =~= t0);
        assert(t1.last() == bv[i as int]);
        let ghost old_fields = fields@.map_values(|f: Vec<u8>| f@);
        let ghost old_start = start;
        if b[i] == 0 {
            let f = byte_range(b, start, i);
            fields.push(f);
            start = i + 1;
            assert(fields@.map_values(|f: Vec<u8>| f@) =~= old_fields.push(f@));
            assert(nul_fields(t1) == nul_fields(t0).push(Seq::<u8>::empty()));
            assert(bv.subrange(start as int, i + 1) =~= Seq::<u8>::empty());
            assert(nul_fields(t1) =~= fields@.map_values(|f: Vec<u8>| f@).push(bv.subrange(start as int, i + 1)));
        } else {
            assert(bv.subrange(start as int, i + 1) =~= bv.subrange(start as int, i as int).push(bv[i as int]));
            let ghost r0 = nul_fields(t0);
            assert(nul_fields(t1) == r0.update(r0.len() - 1, r0.last().push(bv[i as int])));
            assert(nul_fields(t1) =~= fields@.map_values(|f: Vec<u8>| f@).push(bv.subrange(start as int, i + 1)));
        }
        i = i + 1;
        assert(nul_fields(bv.take(i as int)) =~= fields@.map_values(|f: Vec<u8>| f@).push(
            bv.subrange(start as int, i as int),
        ));
    }
    assert(bv.take(bv.len() as int) =~= bv);
    let last = byte_range(b, start, b.len());
    if last.len() > 0 {
        fields.push(last);
    }
    assert(fields@.map_values(|f: Vec<u8>| f@) =~= status_fields(bv));
    fields
}


pub open spec fn strs(v: Seq<String>) -> Seq<Seq<char>> {
    v.map_values(|s: String| s@)
}

/// `(is_dirty, changed_paths)` from `git status --porcelain=v1 -z`. Each
/// entry is `XY path`; a rename or copy entry is followed by a field with
/// the old path, and reads `old -> new`.
pub fn read_dirty_state(run: &Result<GitOutput, String>) -> (r: Result<(bool, Vec<String>), String>)
    ensures
        match run {
            Err(e) => r matches Err(e2) && e2@ == e@,
            Ok(out) => if out.success {
                r matches Ok((dirty, paths)) && strs(paths@) == dirty_spec(out.stdout@) && dirty
                    == (paths@.len() > 0)
            } else {
                r matches Err(m) && m@ == "git status failed: "@ + lossy_text(out.stderr@)
            },
        },
{
    let out = match run {
        Err(e) => {
            return Err(e.clone());
        },
        Ok(out) => out,
    };
    if !out.success {
        let mut m = String::new();
        push_str(&mut m, "git status failed: ");
        let t = utf8_lossy(out.stderr.as_slice());
        push_str(&mut m, t.as_str());
        return Err(m);
    }
    let fields = split_status_fields(&out.stdout);
    let ghost fv = fields@.map_values(|f: Vec<u8>| f@);
    let n = fields.len();
    let mut changed: Vec<String> = Vec::new();
    let mut k: usize = 0;
    while k < n
        invariant
            n == fields@.len(),
            fv == fields@.map_values(|f: Vec<u8>| f@),
            fv == status_fields(out.stdout@),
            k <= n,
            strs(changed@) + changed_from(fv, k as int) == changed_from(fv, 0),
        decreases n - k,
    {
        let entry = &fields[k];
        assert(entry@ == fv[k as int]);
        let ghost before = strs(changed@);
        if entry.len() < 3 {
            k = k + 1;
        } else {
            let tail = byte_range(entry, 3, entry.len());
            assert(tail@ =~= fv[k as int].skip(3));
            let new_path = utf8_lossy(tail.as_slice());
            let two = entry[0] == 82u8 || entry[1] == 82u8 || entry[0] == 67u8 || entry[1] == 67u8;
            if two && k + 1 < n {
                let old_path = utf8_lossy(fields[k + 1].as_slice());
                let mut line = String::new();
                push_str(&mut line, old_path.as_str());
                push_str(&mut line, " -> ");
                push_str(&mut line, new_path.as_str());
                assert(line@ =~= lossy_text(fv[k + 1]) + " -> "@ + lossy_text(fv[k as int].skip(3)));
                changed.push(line);
                assert(strs(changed@) =~= before.push(line@));
                assert(strs(changed@) + changed_from(fv, k + 2) =~= before + changed_from(fv, k as int));
                k = k + 2;
            } else {
                changed.push(new_path);
                assert(strs(changed@) =~= before.push(new_path@));
                assert(strs(changed@) + changed_from(fv, k + 1) =~= before + changed_from(fv, k as int));
                k = k + 1;
            }
        }
    }
    assert(strs(changed@) =~= changed_from(fv, 0));
    let dirty = changed.len() > 0;
    Ok((dirty, changed))
}


/// The lines of a text as `str::lines` gives them: split after each
/// `\n`, a `\r` right before the `\n` dropped, no empty line after a
/// final `\n`.
pub open spec fn lines_spec(t: Seq<char>) -> Seq<Seq<char>>
    decreases t.len(),
{
    if t.len() == 0 {
        Seq::empty()
    } else {
        let j = find_from(t, '\n', 0);
        if j < 0 || j >= t.len() {
            seq![t]
        } else {
            let line = t.take(j);
            let line = if line.len() > 0 && line.last() == '\r' {
                line.drop_last()
            } else {
                line
            };
            seq![line] + lines_spec(t.skip(j + 1))
        }
    }
}

/// Index of the last `c` in `s[..e]`, or -1.
pub open spec fn rfind_before(s: Seq<char>, c: char, e: int) -> int
    decreases e,
{
    if e <= 0 || e > s.len() {
        -1
    } else if s[e - 1] == c {
        e - 1
    } else {
        rfind_before(s, c, e - 1)
    }
}

/// The remote a line of `git remote -v` names, `name\turl (fetch)`: the
/// name before the first tab (which must be there and the name not
/// empty), the url after it up to its last space.
pub open spec fn remote_of(line: Seq<char>) -> Option<(Seq<char>, Seq<char>)> {
    let t = find_from(line, '\t', 0);
    let name = line.take(t);
    if name.len() == 0 || t >= line.len() {
        None
    } else {
        let rest = line.skip(t + 1);
        let sp = rfind_before(rest, ' ', rest.len() as int);
        Some((name, if sp >= 0 { rest.take(sp) } else { rest }))
    }
}

/// The remotes of `lines[..k]` in order of first appearance, each
/// `(name, url)` once.
pub open spec fn remotes_upto(lines: Seq<Seq<char>>, k: int) -> Seq<(Seq<char>, Seq<char>)>
    decreases k,
{
    if k <= 0 || k > lines.len() {
        Seq::empty()
    } else {
        let acc = remotes_upto(lines, k - 1);
        match remote_of(lines[k - 1]) {
            Some(p) => if acc.contains(p) {
                acc
            } else {
                acc.push(p)
            },
            None => acc,
        }
    }
}

proof fn lemma_remotes_upto_distinct(lines: Seq<Seq<char>>, k: int)
    requires
        0 <= k <= lines.len(),
    ensures
        remotes_upto(lines, k).no_duplicates(),
        forall|j: int| 0 <= j < k && j < lines.len() && remote_of(#[trigger] lines[j]) is Some
            ==> remotes_upto(lines, k).contains(remote_of(lines[j])->0),
    decreases k,
{
    if k > 0 {
        lemma_remotes_upto_distinct(lines, k - 1);
        let acc = remotes_upto(lines, k - 1);
        match remote_of(lines[k - 1]) {
            Some(p) => {
                if !acc.contains(p) {
                    assert forall|a: int, b: int| 0 <= a < b < acc.push(p).len() implies acc.push(p)[a]
                        != acc.push(p)[b] by {
                        if b == acc.len() {
                            assert(acc[a] == acc.push(p)[a]);
                        }
                    }
                    assert forall|j: int| 0 <= j < k && remote_of(#[trigger] lines[j]) is Some implies acc.push(
                        p,
                    ).contains(remote_of(lines[j])->0) by {
                        if j < k - 1 {
                            let q = remote_of(lines[j])->0;
                            let w = choose|w: int| 0 <= w < acc.len() && acc[w] == q;
                            assert(acc.push(p)[w] == q);
                        } else {
                            assert(acc.push(p)[acc.len() as int] == p);
                        }
                    }
                }
            },
            None => {},
        }
    }
}

/// `git remote -v` lists each remote twice (fetch and push); the remotes
/// read from it name each `(name, url)` once, and every line that names a
/// remote is represented.
pub proof fn law_remotes_listed_once(stdout: Seq<u8>)
    ensures
        remotes_spec(stdout).no_duplicates(),
        forall|j: int|
            0 <= j < lines_spec(lossy_text(stdout)).len() && remote_of(
                #[trigger] lines_spec(lossy_text(stdout))[j],
            ) is Some ==> remotes_spec(stdout).contains(
                remote_of(lines_spec(lossy_text(stdout))[j])->0,
            ),
{
    let ls = lines_spec(lossy_text(stdout));
    lemma_remotes_upto_distinct(ls, ls.len() as int);
}

pub open spec fn remotes_spec(stdout: Seq<u8>) -> Seq<(Seq<char>, Seq<char>)> {
    let ls = lines_spec(lossy_text(stdout));
    remotes_upto(ls, ls.len() as int)
}

pub open spec fn remotes_view(v: Seq<RemoteInfo>) -> Seq<(Seq<char>, Seq<char>)> {
    v.map_values(|r: RemoteInfo| (r.name@, r.url@))
}

fn char_range(v: &[char], lo: usize, hi: usize) -> (r: String)
    requires
        lo <= hi <= v@.len(),
    ensures
        r@ == v@.subrange(lo as int, hi as int),
{
    string_of(vstd::slice::slice_subrange(v, lo, hi))
}

/// The lines of a text, as `str::lines` splits it.
pub fn text_lines(v: &Vec<char>) -> (r: Vec<String>)
    ensures
        strs(r@) == lines_spec(v@),
{
    let ghost t = v@;
    let mut out: Vec<String> = Vec::new();
    let mut pos: usize = 0;
    assert(t.skip(0) =~= t);
    while pos < v.len()
        invariant
            t == v@,
            pos <= t.len(),
            strs(out@) + lines_spec(t.skip(pos as int)) == lines_spec(t),
        decreases t.len() - pos,
    {
        let rest = vstd::slice::slice_subrange(v.as_slice(), pos, v.len());
        assert(rest@ =~= t.skip(pos as int));
        let j = find_first(rest, '\n');
        proof {
            lemma_find_from_range(rest@, '\n', 0);
        }
        let ghost before = strs(out@);
        if j >= rest.len() {
            let line = char_range(v.as_slice(), pos, v.len());
            assert(line@ =~= t.skip(pos as int));
            out.push(line);
            assert(strs(out@) =~= before.push(line@));
            assert(lines_spec(t.skip(pos as int)) == seq![t.skip(pos as int)]);
            assert(t.skip(v.len() as int) =~= Seq::<char>::empty());
            assert(strs(out@) + lines_spec(t.skip(v.len() as int)) =~= before + lines_spec(t.skip(pos as int)));
            pos = v.len();
        } else {
            let end = pos + j;
            let cut = if j > 0 && v[end - 1] == '\r' { end - 1 } else { end };
            let line = char_range(v.as_slice(), pos, cut);
            let ghost l0 = rest@.take(j as int);
            assert(l0 =~= t.subrange(pos as int, end as int));
            assert(line@ =~= (if l0.len() > 0 && l0.last() == '\r' { l0.drop_last() } else { l0 }));
            out.push(line);
            assert(strs(out@) =~= before.push(line@));
            assert(rest@.skip(j + 1) =~= t.skip(end + 1));
            assert(strs(out@) + lines_spec(t.skip(end + 1)) =~= before + lines_spec(t.skip(pos as int)));
            pos = end + 1;
        }
    }
    assert(t.skip(t.len() as int) =~= Seq::<char>::empty());
    assert(strs(out@) =~= lines_spec(t));
    out
}

/// The remote named on one line of `git remote -v`, if any.
fn parse_remote_line(line: &String) -> (r: Option<RemoteInfo>)
    ensures
        match remote_of(line@) {
            Some(p) => r matches Some(ri) && ri.name@ == p.0 && ri.url@ == p.1,
            None => r is None,
        },
{
    let v = chars_of(line.as_str());
    let t = find_first(v.as_slice(), '\t');
    proof {
        lemma_find_from_range(v@, '\t', 0);
    }
    if t == 0 || t >= v.len() {
        assert(v@.take(t as int).len() == t);
        return None;
    }
    let name = char_range(v.as_slice(), 0, t);
    let mut sp: usize = v.len();
    while sp > t + 1 && v[sp - 1] != ' '
        invariant
            t + 1 <= sp <= v@.len(),
            rfind_before(v@.skip(t + 1), ' ', (v@.len() - t - 1) as int) == rfind_before(v@.skip(t + 1), ' ', sp - t - 1),
        decreases sp,
    {
        sp = sp - 1;
    }
    let ghost rest = v@.skip(t + 1);
    let url = if sp > t + 1 {
        assert(rest[sp - t - 2] == v@[sp - 1]);
        char_range(v.as_slice(), t + 1, sp - 1)
    } else {
        char_range(v.as_slice(), t + 1, v.len())
    };
    assert(name@ =~= v@.take(t as int));
    if sp > t + 1 {
        assert(url@ =~= rest.take(sp - t - 2));
    } else {
        assert(url@ =~= rest);
    }
    Some(RemoteInfo { name, url })
}

/// Whether `v` already holds a remote with this name and url.
fn has_remote(v: &Vec<RemoteInfo>, r: &RemoteInfo) -> (b: bool)
    ensures
        b == remotes_view(v@).contains((r.name@, r.url@)),
{
    let mut i: usize = 0;
    while i < v.len()
        invariant
            i <= v@.len(),
            forall|j: int| 0 <= j < i ==> remotes_view(v@)[j] != (r.name@, r.url@),
        decreases v@.len() - i,
    {
        if str_eq(v[i].name.as_str(), r.name.as_str()) && str_eq(v[i].url.as_str(), r.url.as_str()) {
            assert(remotes_view(v@)[i as int] == (r.name@, r.url@));
            return true;
        }
        i = i + 1;
    }
    false
}

/// The remotes `git remote -v` lists, each `(name, url)` once, in order of
/// first appearance (a remote whose fetch and push urls agree is one
/// entry).
pub fn read_remotes(run: &Result<GitOutput, String>) -> (r: Result<Vec<RemoteInfo>, String>)
    ensures
        match run {
            Err(e) => r matches Err(e2) && e2@ == e@,
            Ok(out) => if out.success {
                r matches Ok(rs) && remotes_view(rs@) == remotes_spec(out.stdout@)
            } else {
                r matches Err(m) && m@ == "git remote -v failed: "@ + lossy_text(out.stderr@)
            },
        },
{
    let out = match run {
        Err(e) => {
            return Err(e.clone());
        },
        Ok(out) => out,
    };
    if !out.success {
        let mut m = String::new();
        push_str(&mut m, "git remote -v failed: ");
        let t = utf8_lossy(out.stderr.as_slice());
        push_str(&mut m, t.as_str());
        return Err(m);
    }
    let text = utf8_lossy(out.stdout.as_slice());
    let chars = chars_of(text.as_str());
    let lines = text_lines(&chars);
    let ghost ls = strs(lines@);
    let mut remotes: Vec<RemoteInfo> = Vec::new();
    for i in 0..lines.len()
        invariant
            ls == strs(lines@),
            ls == lines_spec(lossy_text(out.stdout@)),
            remotes_view(remotes@) == remotes_upto(ls, i as int),
    {
        assert(ls[i as int] == lines@[i as int]@);
        match parse_remote_line(&lines[i]) {
            Some(entry) => {
                if !has_remote(&remotes, &entry) {
                    let ghost before = remotes_view(remotes@);
                    remotes.push(entry);
                    assert(remotes_view(remotes@) =~= before.push((entry.name@, entry.url@)));
                }
            },
            None => {},
        }
    }
    Ok(remotes)
}

} // verus!
