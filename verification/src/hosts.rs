use vstd::prelude::*;
use vstd::string::*;
use crate::text::{
    contains_at, contains_sub, find_char, join_lines, lines_of, lemma_find_char,
    lemma_find_char_at, lemma_find_char_none, lemma_join_lines_of, lemma_join_push,
    lemma_lines_no_newline, lemma_lines_of_concat, lemma_lines_of_join, lemma_lines_of_nonempty,
};

verus! {

/// The line appended to the hosts file to block `domain`: the domain is
/// redirected to the loopback sentinel, and the line ends in a newline.
pub open spec fn blocking_entry_spec(domain: Seq<char>) -> Seq<char> {
    "127.0.0.1 "@ + domain + "\n"@
}

/// A line is removed when it contains any of the given domains as a
/// contiguous run of characters (deliberately a substring test, not an
/// exact-token match, so `notads.example.com` falls with `ads.example.com`).
pub open spec fn line_blocked(line: Seq<char>, domains: Seq<Seq<char>>) -> bool {
    exists|k: int| 0 <= k < domains.len() && #[trigger] contains_sub(line, domains[k])
}

/// The lines that survive a removal pass: exactly those that contain none
/// of the domains.
pub open spec fn kept_lines(lines: Seq<Seq<char>>, domains: Seq<Seq<char>>) -> Seq<Seq<char>>
    decreases lines.len(),
{
    if lines.len() == 0 {
        Seq::empty()
    } else {
        let rest = kept_lines(lines.drop_last(), domains);
        if !line_blocked(lines.last(), domains) {
            rest.push(lines.last())
        } else {
            rest
        }
    }
}

/// The hosts-file text after removing every line that names one of the
/// domains: split into lines, drop the matching ones, join back.
pub open spec fn remove_domains_spec(content: Seq<char>, domains: Seq<Seq<char>>) -> Seq<char> {
    join_lines(kept_lines(lines_of(content), domains))
}

/// Builds the blocking entry for a domain, ready to be appended to the
/// hosts file by the caller.
pub fn blocking_entry(domain: &str) -> (r: String)
    ensures
        r@ == blocking_entry_spec(domain@),
{
    let mut r = String::from_str("127.0.0.1 ");
    r.append(domain);
    r.append("\n");
    r
}

/// The hosts-file text after blocking `domain`: the old content with the
/// blocking entry appended. The caller writes only the entry, in append
/// mode, so the existing bytes are never rewritten.
pub fn block_domain(content: &str, domain: &str) -> (r: String)
    ensures
        r@ == content@ + blocking_entry_spec(domain@),
{
    let mut r = String::from_str(content);
    let entry = blocking_entry(domain);
    r.append(entry.as_str());
    r
}

/// Where the hosts file lives on each platform family.
pub fn get_hosts_path(windows: bool) -> (r: String)
    ensures
        windows ==> r@ == "C:\\Windows\\System32\\drivers\\etc\\hosts"@,
        !windows ==> r@ == "/etc/hosts"@,
{
    if windows {
        String::from_str("C:\\Windows\\System32\\drivers\\etc\\hosts")
    } else {
        String::from_str("/etc/hosts")
    }
}

/// Whether `pat` occurs anywhere in `line`.
fn str_contains(line: &str, pat: &str) -> (b: bool)
    ensures
        b == contains_sub(line@, pat@),
{
    let n = line.unicode_len();
    let m = pat.unicode_len();
    if m > n {
        proof {
            if contains_sub(line@, pat@) {
                let i = choose|i: int| contains_at(line@, pat@, i);
                assert(i + pat@.len() <= line@.len());
            }
        }
        return false;
    }
    let mut i: usize = 0;
    while i <= n - m
        invariant
            m <= n,
            n == line@.len(),
            m == pat@.len(),
            i <= n - m + 1,
            forall|k: int| 0 <= k < i ==> !contains_at(line@, pat@, k),
        decreases n - m + 1 - i,
    {
        let mut j: usize = 0;
        while j < m && line.get_char(i + j) == pat.get_char(j)
            invariant
                i + m <= n,
                j <= m,
                forall|t: int| 0 <= t < j ==> line@[i + t] == pat@[t],
            decreases m - j,
        {
            j = j + 1;
        }
        if j == m {
            proof {
                assert(line@.subrange(i as int, i + m) =~= pat@);
                assert(contains_at(line@, pat@, i as int));
            }
            return true;
        }
        proof {
            assert(line@[i + j] != pat@[j as int]);
            if contains_at(line@, pat@, i as int) {
                assert(line@.subrange(i as int, i + m)[j as int] == pat@[j as int]);
            }
        }
        i = i + 1;
    }
    proof {
        if contains_sub(line@, pat@) {
            let k = choose|k: int| contains_at(line@, pat@, k);
            assert(!contains_at(line@, pat@, k));
        }
    }
    false
}

/// Whether `line` contains any of the domains.
fn line_matches_any(line: &str, domains: &Vec<String>) -> (b: bool)
    ensures
        b == line_blocked(line@, domains.deep_view()),
{
    let mut k: usize = 0;
    while k < domains.len()
        invariant
            k <= domains.len(),
            forall|t: int| 0 <= t < k ==> !contains_sub(line@, #[trigger] domains.deep_view()[t]),
        decreases domains.len() - k,
    {
        if str_contains(line, domains[k].as_str()) {
            proof {
                assert(contains_sub(line@, domains.deep_view()[k as int]));
            }
            return true;
        }
        k = k + 1;
    }
    false
}

/// The lines of `content`, split on every newline.
fn split_lines(content: &str) -> (r: Vec<String>)
    ensures
        r.deep_view() == lines_of(content@),
{
    let n = content.unicode_len();
    let mut r: Vec<String> = Vec::new();
    let mut start: usize = 0;
    let mut i: usize = 0;
    proof {
        assert(content@.subrange(0, n as int) =~= content@);
        assert(r.deep_view() =~= Seq::<Seq<char>>::empty());
        assert(r.deep_view() + lines_of(content@) =~= lines_of(content@));
    }
    while i < n
        invariant
            start <= i <= n,
            n == content@.len(),
            forall|k: int| start <= k < i ==> content@[k] != '\n',
            lines_of(content@) == r.deep_view() + lines_of(
                content@.subrange(start as int, n as int),
            ),
        decreases n - i,
    {
        if content.get_char(i) == '\n' {
            let line = content.substring_char(start, i).to_owned();
            let ghost pre = r.deep_view();
            let ghost suf = content@.subrange(start as int, n as int);
            proof {
                assert forall|k: int| 0 <= k < i - start implies suf[k] != '\n' by {
                    assert(suf[k] == content@[start + k]);
                }
                assert(suf[i - start] == content@[i as int]);
                lemma_find_char_at(suf, '\n', i - start);
                assert(suf.subrange(0, i - start) =~= content@.subrange(
                    start as int,
                    i as int,
                ));
                assert(suf.subrange(i - start + 1, suf.len() as int) =~= content@.subrange(
                    i + 1,
                    n as int,
                ));
            }
            r.push(line);
            proof {
                assert(r.deep_view() =~= pre.push(line@));
                assert(pre.push(line@) + lines_of(content@.subrange(i + 1, n as int)) =~= pre
                    + lines_of(suf));
            }
            start = i + 1;
        }
        i = i + 1;
    }
    let line = content.substring_char(start, n).to_owned();
    let ghost pre = r.deep_view();
    let ghost suf = content@.subrange(start as int, n as int);
    proof {
        assert forall|k: int| 0 <= k < suf.len() implies suf[k] != '\n' by {
            assert(suf[k] == content@[start + k]);
        }
        lemma_find_char_none(suf, '\n');
    }
    r.push(line);
    proof {
        assert(r.deep_view() =~= pre.push(line@));
        assert(pre.push(line@) =~= pre + lines_of(suf));
    }
    r
}

/// Joins lines back into one text with newlines between them.
fn join_all(lines: &Vec<String>) -> (r: String)
    ensures
        r@ == join_lines(lines.deep_view()),
{
    if lines.len() == 0 {
        let r = String::new();
        proof {
            assert(lines.deep_view() =~= Seq::<Seq<char>>::empty());
        }
        return r;
    }
    let mut r = String::from_str(lines[0].as_str());
    proof {
        assert(lines.deep_view().subrange(0, 1) =~= seq![lines.deep_view()[0]]);
    }
    let mut k: usize = 1;
    while k < lines.len()
        invariant
            1 <= k <= lines.len(),
            r@ == join_lines(lines.deep_view().subrange(0, k as int)),
        decreases lines.len() - k,
    {
        r.append("\n");
        r.append(lines[k].as_str());
        proof {
            reveal_strlit("\n");
            assert("\n"@ =~= seq!['\n']);
            let pre = lines.deep_view().subrange(0, k as int);
            lemma_join_push(pre, lines.deep_view()[k as int]);
            assert(pre.push(lines.deep_view()[k as int]) =~= lines.deep_view().subrange(
                0,
                k + 1,
            ));
        }
        k = k + 1;
    }
    proof {
        assert(lines.deep_view().subrange(0, lines@.len() as int) =~= lines.deep_view());
    }
    r
}

/// Rewrites the hosts-file text without any line that names one of the
/// domains. Every other line is kept byte for byte, in its order.
pub fn unblock_domains(content: &str, domains: &Vec<String>) -> (r: String)
    ensures
        r@ == remove_domains_spec(content@, domains.deep_view()),
{
    let lines = split_lines(content);
    let mut kept: Vec<String> = Vec::new();
    let mut idx: usize = 0;
    while idx < lines.len()
        invariant
            idx <= lines.len(),
            lines.deep_view() == lines_of(content@),
            kept.deep_view() == kept_lines(
                lines.deep_view().subrange(0, idx as int),
                domains.deep_view(),
            ),
        decreases lines.len() - idx,
    {
        let blocked = line_matches_any(lines[idx].as_str(), domains);
        let ghost pre = lines.deep_view().subrange(0, idx as int);
        let ghost ext = lines.deep_view().subrange(0, idx + 1);
        proof {
            assert(ext.drop_last() =~= pre);
            assert(ext.last() == lines.deep_view()[idx as int]);
        }
        if !blocked {
            let ghost pk = kept.deep_view();
            kept.push(lines[idx].clone());
            proof {
                assert(kept.deep_view() =~= pk.push(lines.deep_view()[idx as int]));
            }
        }
        idx = idx + 1;
    }
    proof {
        assert(lines.deep_view().subrange(0, lines@.len() as int) =~= lines.deep_view());
    }
    join_all(&kept)
}

pub proof fn lemma_kept_lines_concat(a: Seq<Seq<char>>, b: Seq<Seq<char>>, domains: Seq<Seq<char>>)
    ensures
        kept_lines(a + b, domains) == kept_lines(a, domains) + kept_lines(b, domains),
    decreases b.len(),
{
    if b.len() == 0 {
        assert(a + b =~= a);
        assert(kept_lines(b, domains) =~= Seq::<Seq<char>>::empty());
        assert(kept_lines(a, domains) + kept_lines(b, domains) =~= kept_lines(a, domains));
    } else {
        lemma_kept_lines_concat(a, b.drop_last(), domains);
        assert((a + b).drop_last() =~= a + b.drop_last());
        assert((a + b).last() == b.last());
        if !line_blocked(b.last(), domains) {
            assert(kept_lines(a, domains) + kept_lines(b, domains) =~= (kept_lines(a, domains)
                + kept_lines(b.drop_last(), domains)).push(b.last()));
        }
    }
}

/// A removal pass over lines none of which names a domain keeps them all.
pub proof fn lemma_kept_lines_all(lines: Seq<Seq<char>>, domains: Seq<Seq<char>>)
    requires
        forall|j: int| 0 <= j < lines.len() ==> !line_blocked(#[trigger] lines[j], domains),
    ensures
        kept_lines(lines, domains) == lines,
    decreases lines.len(),
{
    if lines.len() == 0 {
        assert(kept_lines(lines, domains) =~= lines);
    } else {
        assert forall|j: int| 0 <= j < lines.drop_last().len() implies !line_blocked(
            #[trigger] lines.drop_last()[j],
            domains,
        ) by {
            assert(lines.drop_last()[j] == lines[j]);
        }
        lemma_kept_lines_all(lines.drop_last(), domains);
        assert(lines.drop_last().push(lines.last()) =~= lines);
    }
}

/// Every line a removal pass keeps names none of the domains.
pub proof fn lemma_kept_lines_not_blocked(lines: Seq<Seq<char>>, domains: Seq<Seq<char>>)
    ensures
        forall|j: int|
            0 <= j < kept_lines(lines, domains).len() ==> !line_blocked(
                #[trigger] kept_lines(lines, domains)[j],
                domains,
            ),
    decreases lines.len(),
{
    if lines.len() == 0 {
    } else {
        lemma_kept_lines_not_blocked(lines.drop_last(), domains);
        let kd = kept_lines(lines.drop_last(), domains);
        let kf = kept_lines(lines, domains);
        assert forall|j: int| 0 <= j < kf.len() implies !line_blocked(kf[j], domains) by {
            if !line_blocked(lines.last(), domains) {
                assert(kf == kd.push(lines.last()));
                if j < kd.len() {
                    assert(kf[j] == kd[j]);
                } else {
                    assert(kf[j] == lines.last());
                }
            } else {
                assert(kf == kd);
            }
        }
    }
}

/// A removal pass over newline-free lines yields newline-free lines.
pub proof fn lemma_kept_lines_no_newline(lines: Seq<Seq<char>>, domains: Seq<Seq<char>>)
    requires
        forall|j: int| 0 <= j < lines.len() ==> !(#[trigger] lines[j]).contains('\n'),
    ensures
        forall|j: int|
            0 <= j < kept_lines(lines, domains).len() ==> !(#[trigger] kept_lines(
                lines,
                domains,
            )[j]).contains('\n'),
    decreases lines.len(),
{
    if lines.len() == 0 {
    } else {
        assert forall|j: int| 0 <= j < lines.drop_last().len() implies !(
        #[trigger] lines.drop_last()[j]).contains('\n') by {
            assert(lines.drop_last()[j] == lines[j]);
        }
        lemma_kept_lines_no_newline(lines.drop_last(), domains);
        let kd = kept_lines(lines.drop_last(), domains);
        let kf = kept_lines(lines, domains);
        assert forall|j: int| 0 <= j < kf.len() implies !(#[trigger] kf[j]).contains('\n') by {
            if !line_blocked(lines.last(), domains) {
                assert(kf == kd.push(lines.last()));
                if j < kd.len() {
                    assert(kf[j] == kd[j]);
                } else {
                    assert(kf[j] == lines.last());
                }
            } else {
                assert(kf == kd);
            }
        }
    }
}

/// The blocking entry for a newline-free domain splits into exactly two
/// lines: the blocking line itself and a final empty line.
proof fn lemma_entry_lines(domain: Seq<char>)
    requires
        domain.len() > 0,
        forall|k: int| 0 <= k < domain.len() ==> domain[k] != '\n',
    ensures
        lines_of(blocking_entry_spec(domain)) == seq![
            "127.0.0.1 "@ + domain,
            Seq::<char>::empty(),
        ],
        blocking_entry_spec(domain).len() > 0,
        blocking_entry_spec(domain).last() == '\n',
        "127.0.0.1 "@.len() == 10,
{
    reveal_strlit("127.0.0.1 ");
    reveal_strlit("\n");
    let lit = "127.0.0.1 "@;
    let line = lit + domain;
    let e = blocking_entry_spec(domain);
    assert(lit =~= seq!['1', '2', '7', '.', '0', '.', '0', '.', '1', ' ']);
    assert("\n"@ =~= seq!['\n']);
    assert(e =~= line + seq!['\n']);
    assert forall|k: int| 0 <= k < line.len() implies line[k] != '\n' by {
        if k < 10 {
            assert(line[k] == lit[k]);
        } else {
            assert(line[k] == domain[k - 10]);
        }
    }
    assert(e[line.len() as int] == '\n');
    assert forall|k: int| 0 <= k < line.len() implies e[k] != '\n' by {
        assert(e[k] == line[k]);
    }
    lemma_find_char_at(e, '\n', line.len() as int);
    let emp = Seq::<char>::empty();
    assert(e.subrange(0, line.len() as int) =~= line);
    assert(e.subrange(line.len() as int + 1, e.len() as int) =~= emp);
    assert(lines_of(emp) == seq![emp]);
    assert(lines_of(e) == seq![line] + lines_of(emp));
    assert(seq![line] + seq![emp] =~= seq![line, emp]);
}

/// An empty line contains no non-empty domain.
proof fn lemma_empty_line_not_blocked(domains: Seq<Seq<char>>)
    requires
        forall|k: int| 0 <= k < domains.len() ==> (#[trigger] domains[k]).len() > 0,
    ensures
        !line_blocked(Seq::<char>::empty(), domains),
{
    let emp = Seq::<char>::empty();
    if line_blocked(emp, domains) {
        let k = choose|k: int| 0 <= k < domains.len() && #[trigger] contains_sub(emp, domains[k]);
        let i = choose|i: int| contains_at(emp, domains[k], i);
        assert(i + domains[k].len() <= 0);
    }
}

/// After a successful block of a non-empty, newline-free domain against a
/// hosts-file text that is empty or ends in a newline, the file's lines
/// contain the line that maps the domain to the loopback sentinel.
pub proof fn lemma_block_adds_entry(content: Seq<char>, domain: Seq<char>)
    requires
        content.len() == 0 || content.last() == '\n',
        domain.len() > 0,
        forall|k: int| 0 <= k < domain.len() ==> domain[k] != '\n',
    ensures
        lines_of(content + blocking_entry_spec(domain)).contains("127.0.0.1 "@ + domain),
{
    let line = "127.0.0.1 "@ + domain;
    let e = blocking_entry_spec(domain);
    lemma_entry_lines(domain);
    lemma_lines_of_concat(content, e);
    if content.len() == 0 {
        assert(content + e =~= e);
        assert(lines_of(e)[0] == line);
        assert(lines_of(content + e)[0] == line);
    } else {
        let idx = lines_of(content).drop_last().len() as int;
        assert(lines_of(content + e)[idx] == line);
    }
}

/// A cleanup pass leaves no line that names any of the (non-empty) blocked
/// domains: splitting the rewritten text again shows only clean lines.
pub proof fn lemma_cleanup_removes_all(content: Seq<char>, domains: Seq<Seq<char>>)
    requires
        forall|k: int| 0 <= k < domains.len() ==> (#[trigger] domains[k]).len() > 0,
    ensures
        forall|j: int|
            0 <= j < lines_of(remove_domains_spec(content, domains)).len() ==> !line_blocked(
                #[trigger] lines_of(remove_domains_spec(content, domains))[j],
                domains,
            ),
{
    let ls = lines_of(content);
    let kept = kept_lines(ls, domains);
    let r = join_lines(kept);
    lemma_lines_no_newline(content);
    lemma_kept_lines_no_newline(ls, domains);
    lemma_kept_lines_not_blocked(ls, domains);
    if kept.len() == 0 {
        assert(r =~= Seq::<char>::empty());
        assert(lines_of(r) == seq![r]);
        lemma_empty_line_not_blocked(domains);
    } else {
        lemma_lines_of_join(kept);
    }
}

/// Cleaning up twice with the same domains is safe: the second pass
/// returns its input unchanged.
pub proof fn lemma_cleanup_idempotent(content: Seq<char>, domains: Seq<Seq<char>>)
    ensures
        remove_domains_spec(remove_domains_spec(content, domains), domains)
            == remove_domains_spec(content, domains),
{
    let ls = lines_of(content);
    let kept = kept_lines(ls, domains);
    let r = join_lines(kept);
    lemma_lines_no_newline(content);
    lemma_kept_lines_no_newline(ls, domains);
    lemma_kept_lines_not_blocked(ls, domains);
    if kept.len() == 0 {
        assert(r =~= Seq::<char>::empty());
        assert(lines_of(r) == seq![r]);
        assert(seq![r].drop_last() =~= Seq::<Seq<char>>::empty());
        assert(kept_lines(Seq::<Seq<char>>::empty(), domains) == Seq::<Seq<char>>::empty());
        if line_blocked(r, domains) {
            assert(kept_lines(seq![r], domains) =~= Seq::<Seq<char>>::empty());
        } else {
            assert(kept_lines(seq![r], domains) =~= Seq::<Seq<char>>::empty().push(r));
            assert(Seq::<Seq<char>>::empty().push(r) =~= seq![r]);
        }
    } else {
        lemma_lines_of_join(kept);
        lemma_kept_lines_all(kept, domains);
    }
}

/// Round trip: blocking a domain that the file did not name, then cleaning
/// up that one domain, restores the file text exactly.
pub proof fn lemma_block_cleanup_round_trip(content: Seq<char>, domain: Seq<char>)
    requires
        content.len() == 0 || content.last() == '\n',
        domain.len() > 0,
        forall|k: int| 0 <= k < domain.len() ==> domain[k] != '\n',
        forall|j: int|
            0 <= j < lines_of(content).len() ==> !contains_sub(
                #[trigger] lines_of(content)[j],
                domain,
            ),
    ensures
        remove_domains_spec(content + blocking_entry_spec(domain), seq![domain]) == content,
{
    let lit = "127.0.0.1 "@;
    let line = lit + domain;
    let e = blocking_entry_spec(domain);
    let ds = seq![domain];
    let emp = Seq::<char>::empty();
    lemma_entry_lines(domain);
    lemma_lines_of_concat(content, e);
    assert(line.subrange(10, 10 + domain.len() as int) =~= domain);
    assert(contains_at(line, domain, 10));
    assert(ds[0] == domain);
    assert(contains_sub(line, ds[0]));
    assert(line_blocked(line, ds));
    assert forall|k: int| 0 <= k < ds.len() implies (#[trigger] ds[k]).len() > 0 by {
        assert(ds[k] == domain);
    }
    lemma_empty_line_not_blocked(ds);
    assert(seq![line, emp].drop_last() =~= seq![line]);
    assert(seq![line].drop_last() =~= Seq::<Seq<char>>::empty());
    assert(kept_lines(Seq::<Seq<char>>::empty(), ds) == Seq::<Seq<char>>::empty());
    assert(kept_lines(seq![line], ds) =~= Seq::<Seq<char>>::empty());
    assert(kept_lines(seq![line, emp], ds) =~= Seq::<Seq<char>>::empty().push(emp));
    assert(Seq::<Seq<char>>::empty().push(emp) =~= seq![emp]);
    if content.len() == 0 {
        assert(content + e =~= e);
        assert(kept_lines(lines_of(content + e), ds) =~= seq![emp]);
        assert(join_lines(seq![emp]) == emp);
        assert(content =~= emp);
    } else {
        let lc = lines_of(content);
        lemma_lines_of_concat(content, emp);
        assert(content + emp =~= content);
        assert(lines_of(emp) =~= seq![emp]);
        assert(lc =~= lc.drop_last() + seq![emp]);
        assert(lines_of(content + e) == lc.drop_last() + lines_of(e));
        lemma_kept_lines_concat(lc.drop_last(), seq![line, emp], ds);
        assert forall|j: int| 0 <= j < lc.drop_last().len() implies !line_blocked(
            #[trigger] lc.drop_last()[j],
            ds,
        ) by {
            assert(lc.drop_last()[j] == lc[j]);
            if line_blocked(lc[j], ds) {
                let k = choose|k: int|
                    0 <= k < ds.len() && #[trigger] contains_sub(lc[j], ds[k]);
                assert(ds[k] == domain);
            }
        }
        lemma_kept_lines_all(lc.drop_last(), ds);
        assert(kept_lines(lines_of(content + e), ds) =~= lc.drop_last() + seq![emp]);
        assert(kept_lines(lines_of(content + e), ds) =~= lc);
        lemma_join_lines_of(content);
    }
}

} // verus!
