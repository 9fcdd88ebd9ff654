//! Why applying a hosts description a second time changes nothing, on a
//! hosts file that is well formed for it.

use crate::job::{
    any_line_of, is_line_of, line_ending, listed, names, rendered, rewritten_hosts,
    rewritten_line, spaced,
};
use crate::message::HostSpecView;
use crate::text::{
    chomp, has_crlf, is_blank, is_space, lemma_run_ends, lemma_run_is, lines, run, words,
    CharClass,
};
use vstd::prelude::*;

verus! {

/// Whether `w` is one word: not empty and without white space.
pub open spec fn is_word(w: Seq<char>) -> bool {
    w.len() > 0 && forall|i: int| 0 <= i < w.len() ==> !is_space(#[trigger] w[i])
}

/// Whether `w` is not empty and without ASCII white space.
pub open spec fn is_token(w: Seq<char>) -> bool {
    w.len() > 0 && forall|i: int| 0 <= i < w.len() ==> !is_blank(#[trigger] w[i])
}

/// Whether `l` is free of line feeds and carriage returns.
pub open spec fn is_flat(l: Seq<char>) -> bool {
    forall|i: int| 0 <= i < l.len() ==> #[trigger] l[i] != '\n' && l[i] != '\r'
}

/// Whether `l` is free of line feeds.
pub open spec fn is_one_line(l: Seq<char>) -> bool {
    forall|i: int| 0 <= i < l.len() ==> #[trigger] l[i] != '\n'
}

/// Whether `l` ends with a carriage return.
pub open spec fn ends_in_cr(l: Seq<char>) -> bool {
    l.len() > 0 && l.last() == '\r'
}

/// Whether the hosts file `content` is well formed for `spec`: the address
/// is one word, the file has a line of the address, no line of the address
/// lists a name that `spec` asks for, and the file does not end in a
/// carriage return.
pub open spec fn well_formed(content: Seq<char>, spec: HostSpecView) -> bool {
    &&& is_word(spec.ip)
    &&& any_line_of(lines(content), spec.ip)
    &&& forall|i: int|
        0 <= i < lines(content).len() && is_line_of(#[trigger] lines(content)[i], spec.ip)
            ==> listed(spec.hosts, names(lines(content)[i])).len() == 0
    &&& !ends_in_cr(content)
}

/// Every word of a text is a token.
pub proof fn lemma_words_are_tokens(s: Seq<char>)
    ensures
        forall|i: int| 0 <= i < words(s).len() ==> is_token(#[trigger] words(s)[i]),
    decreases s.len(),
{
    if s.len() == 0 {
        assert(words(s) =~= Seq::<Seq<char>>::empty());
    } else if is_blank(s[0]) {
        lemma_words_are_tokens(s.skip(1));
        assert(words(s) == words(s.skip(1)));
    } else {
        let n = run(s, CharClass::Word);
        lemma_run_ends(s, CharClass::Word);
        if n <= 0 || n > s.len() {
            assert(words(s) =~= Seq::<Seq<char>>::empty());
        } else {
            assert(words(s) == seq![s.take(n)] + words(s.skip(n)));
            lemma_words_are_tokens(s.skip(n));
            let first = s.take(n);
            assert(is_token(first)) by {
                assert forall|i: int| 0 <= i < first.len() implies !is_blank(
                    #[trigger] first[i],
                ) by {
                    assert(CharClass::Word.holds(s[i]));
                }
            }
            assert forall|i: int| 0 <= i < words(s).len() implies is_token(
                #[trigger] words(s)[i],
            ) by {
                if i > 0 {
                    assert(words(s)[i] == words(s.skip(n))[i - 1]);
                }
            }
        }
    }
}

/// Names with a space before each, one list after another.
pub proof fn lemma_spaced_add(a: Seq<Seq<char>>, b: Seq<Seq<char>>)
    ensures
        spaced(a + b) == spaced(a) + spaced(b),
    decreases b.len(),
{
    if b.len() == 0 {
        assert(a + b =~= a);
        assert(spaced(a) + spaced(b) =~= spaced(a));
    } else {
        lemma_spaced_add(a, b.drop_last());
        assert((a + b).drop_last() =~= a + b.drop_last());
        assert((a + b).last() == b.last());
        assert(spaced(a + b) =~= spaced(a) + spaced(b));
    }
}

/// The words of a token followed by spaced tokens are the token and those
/// tokens.
pub proof fn lemma_words_of_spaced(w: Seq<char>, ns: Seq<Seq<char>>)
    requires
        is_token(w),
        forall|i: int| 0 <= i < ns.len() ==> is_token(#[trigger] ns[i]),
    ensures
        words(w + spaced(ns)) == seq![w] + ns,
    decreases ns.len(),
{
    let s = w + spaced(ns);
    if ns.len() == 0 {
        assert(s =~= w);
        assert forall|j: int| 0 <= j < w.len() implies CharClass::Word.holds(#[trigger] w[j]) by {}
        lemma_run_is(w, CharClass::Word, w.len() as int);
        assert(w.take(w.len() as int) =~= w);
        assert(w.skip(w.len() as int) =~= Seq::<char>::empty());
        assert(words(Seq::<char>::empty()) =~= Seq::<Seq<char>>::empty());
        assert(!is_blank(w[0]));
        assert(words(w) == seq![w.take(w.len() as int)] + words(w.skip(w.len() as int)));
        assert(words(w) =~= seq![w]);
        assert(seq![w] + ns =~= seq![w]);
    } else {
        let first = ns[0];
        let rest = ns.skip(1);
        assert(ns =~= seq![first] + rest);
        lemma_spaced_add(seq![first], rest);
        assert(seq![first].drop_last() =~= Seq::<Seq<char>>::empty());
        assert(spaced(Seq::<Seq<char>>::empty()) =~= Seq::<char>::empty());
        assert(spaced(seq![first]) == spaced(seq![first].drop_last()) + seq![' '] + seq![
            first,
        ].last());
        assert(spaced(seq![first]) =~= seq![' '] + first);
        let tail = first + spaced(rest);
        assert(s =~= w + seq![' '] + tail);
        assert forall|j: int| 0 <= j < w.len() implies CharClass::Word.holds(#[trigger] s[j]) by {
            assert(s[j] == w[j]);
        }
        assert(s[w.len() as int] == ' ');
        assert(!CharClass::Word.holds(s[w.len() as int]));
        lemma_run_is(s, CharClass::Word, w.len() as int);
        assert(s.take(w.len() as int) =~= w);
        let after = s.skip(w.len() as int);
        assert(after =~= seq![' '] + tail);
        assert(is_blank(after[0]));
        assert(after.skip(1) =~= tail);
        assert(words(after) == words(tail));
        assert forall|i: int| 0 <= i < rest.len() implies is_token(#[trigger] rest[i]) by {
            assert(rest[i] == ns[i + 1]);
        }
        lemma_words_of_spaced(first, rest);
        assert(!is_blank(s[0])) by {
            assert(s[0] == w[0]);
        }
        assert(words(s) =~= seq![w] + (seq![first] + rest));
    }
}

/// Spaced tokens hold neither a line feed nor a carriage return.
pub proof fn lemma_spaced_is_flat(ns: Seq<Seq<char>>)
    requires
        forall|i: int| 0 <= i < ns.len() ==> is_token(#[trigger] ns[i]),
    ensures
        is_flat(spaced(ns)),
    decreases ns.len(),
{
    if ns.len() > 0 {
        assert forall|i: int| 0 <= i < ns.drop_last().len() implies is_token(
            #[trigger] ns.drop_last()[i],
        ) by {
            assert(ns.drop_last()[i] == ns[i]);
        }
        lemma_spaced_is_flat(ns.drop_last());
        let head = spaced(ns.drop_last());
        let last = ns.last();
        assert(is_token(last));
        assert forall|i: int| 0 <= i < spaced(ns).len() implies #[trigger] spaced(ns)[i] != '\n'
            && spaced(ns)[i] != '\r' by {
            if i < head.len() {
                assert(spaced(ns)[i] == head[i]);
            } else if i == head.len() {
                assert(spaced(ns)[i] == ' ');
            } else {
                assert(spaced(ns)[i] == last[i - head.len() - 1]);
                assert(!is_blank(last[i - head.len() - 1]));
            }
        }
    }
}

/// The names that a list has in common with tokens are tokens.
pub proof fn lemma_listed_are_tokens(hosts: Seq<Seq<char>>, origin: Seq<Seq<char>>)
    requires
        forall|i: int| 0 <= i < origin.len() ==> is_token(#[trigger] origin[i]),
    ensures
        forall|i: int|
            0 <= i < listed(hosts, origin).len() ==> is_token(#[trigger] listed(hosts, origin)[i]),
{
    let keep = |h: Seq<char>| origin.contains(h);
    hosts.filter_lemma(keep);
    assert forall|i: int| 0 <= i < listed(hosts, origin).len() implies is_token(
        #[trigger] listed(hosts, origin)[i],
    ) by {
        let h = hosts.filter(keep)[i];
        assert(keep(h));
        let j = choose|j: int| 0 <= j < origin.len() && origin[j] == h;
        assert(is_token(origin[j]));
    }
}

/// A line of the address, once rewritten, is flat, is still a line of the
/// address, and has the names it had, followed by those that were listed
/// again.
pub proof fn lemma_rewritten_line_of(line: Seq<char>, spec: HostSpecView)
    requires
        is_word(spec.ip),
        is_line_of(line, spec.ip),
    ensures
        is_flat(rewritten_line(line, spec)),
        is_line_of(rewritten_line(line, spec), spec.ip),
        names(rewritten_line(line, spec)) == names(line) + listed(spec.hosts, names(line)),
{
    let ip = spec.ip;
    let ns = names(line);
    let again = listed(spec.hosts, ns);
    let out = rewritten_line(line, spec);
    lemma_words_are_tokens(line);
    assert forall|i: int| 0 <= i < ns.len() implies is_token(#[trigger] ns[i]) by {
        assert(ns[i] == words(line)[i + 1]);
    }
    lemma_listed_are_tokens(spec.hosts, ns);
    let all = ns + again;
    assert forall|i: int| 0 <= i < all.len() implies is_token(#[trigger] all[i]) by {
        if i < ns.len() {
            assert(all[i] == ns[i]);
        } else {
            assert(all[i] == again[i - ns.len()]);
        }
    }
    lemma_spaced_add(ns, again);
    assert(out =~= ip + spaced(all));
    assert(is_token(ip)) by {
        assert forall|i: int| 0 <= i < ip.len() implies !is_blank(#[trigger] ip[i]) by {
            assert(!is_space(ip[i]));
        }
    }
    lemma_spaced_is_flat(all);
    assert(is_flat(out)) by {
        assert forall|i: int| 0 <= i < out.len() implies #[trigger] out[i] != '\n' && out[i]
            != '\r' by {
            if i < ip.len() {
                assert(out[i] == ip[i]);
                assert(!is_space(ip[i]));
            } else {
                assert(out[i] == spaced(all)[i - ip.len()]);
            }
        }
    }
    assert(is_line_of(out, ip)) by {
        assert(out[0] == ip[0]);
        assert(!CharClass::Space.holds(out[0]));
        assert(run(out, CharClass::Space) == 0);
        assert(out.skip(0) =~= out);
        assert(out.take(ip.len() as int) =~= ip);
    }
    lemma_words_of_spaced(ip, all);
    assert(words(out) == seq![ip] + all);
    assert(names(out) =~= all);
}

/// A text that ends in a carriage return, or holds one before a line feed,
/// is the only kind whose lines can end in one; and no line holds a line
/// feed.
pub proof fn lemma_lines_are_lines(s: Seq<char>)
    ensures
        forall|i: int| 0 <= i < lines(s).len() ==> is_one_line(#[trigger] lines(s)[i]),
        forall|i: int|
            0 <= i < lines(s).len() && ends_in_cr(#[trigger] lines(s)[i]) ==> has_crlf(s)
                || ends_in_cr(s),
    decreases s.len(),
{
    if s.len() == 0 {
    } else {
        let n = run(s, CharClass::Line);
        lemma_run_ends(s, CharClass::Line);
        if n < 0 || n >= s.len() {
            assert forall|j: int| 0 <= j < s.len() implies #[trigger] s[j] != '\n' by {
                assert(CharClass::Line.holds(s[j]));
            }
        } else {
            let rest = s.skip(n + 1);
            lemma_lines_are_lines(rest);
            let first = chomp(s.take(n));
            assert(is_one_line(first)) by {
                assert forall|j: int| 0 <= j < first.len() implies #[trigger] first[j] != '\n' by {
                    assert(first[j] == s[j]);
                    assert(CharClass::Line.holds(s[j]));
                }
            }
            assert(s[n] == '\n');
            if ends_in_cr(first) {
                assert(s.take(n).len() > 0 && s.take(n).last() == '\r');
                assert(s[n - 1] == '\r');
                assert(s[(n - 1) + 1] == '\n');
                assert(has_crlf(s));
            }
            assert forall|i: int| 0 <= i < lines(s).len() implies is_one_line(
                #[trigger] lines(s)[i],
            ) && (ends_in_cr(lines(s)[i]) ==> has_crlf(s) || ends_in_cr(s)) by {
                if i > 0 {
                    let l = lines(rest)[i - 1];
                    assert(lines(s)[i] == l);
                    if ends_in_cr(l) {
                        if has_crlf(rest) {
                            let k = choose|k: int|
                                0 <= k && k + 1 < rest.len() && rest[k] == '\r' && #[trigger] rest[k
                                    + 1] == '\n';
                            assert(s[(k + n + 1)] == '\r');
                            assert(s[(k + n + 1) + 1] == '\n');
                        } else {
                            assert(rest.last() == s.last());
                        }
                    }
                }
            }
        }
    }
}

/// The text of the lines `ls`, each ended with `eol`.
pub open spec fn flat(ls: Seq<Seq<char>>, eol: Seq<char>) -> Seq<char>
    decreases ls.len(),
{
    if ls.len() == 0 {
        Seq::empty()
    } else {
        flat(ls.drop_last(), eol) + ls.last() + eol
    }
}

/// Whether `eol` is one of the two line endings.
pub open spec fn is_ending(eol: Seq<char>) -> bool {
    eol == seq!['\n'] || eol == seq!['\r', '\n']
}

/// Lines that were ended and joined come apart into the same lines, where
/// none holds a line feed and, with the short ending, none ends in a
/// carriage return. With the long ending the text holds the pair, with the
/// short one it does not.
pub proof fn lemma_lines_of_flat(ls: Seq<Seq<char>>, eol: Seq<char>)
    requires
        is_ending(eol),
        forall|i: int| 0 <= i < ls.len() ==> is_one_line(#[trigger] ls[i]),
        eol == seq!['\n'] ==> forall|i: int| 0 <= i < ls.len() ==> !ends_in_cr(#[trigger] ls[i]),
    ensures
        lines(flat(ls, eol)) == ls,
        ls.len() > 0 ==> (has_crlf(flat(ls, eol)) <==> eol == seq!['\r', '\n']),
        ls.len() > 0 ==> flat(ls, eol).len() > 0 && flat(ls, eol).last() == '\n',
    decreases ls.len(),
{
    if ls.len() == 0 {
    } else {
        let head = ls.drop_last();
        let x = ls.last();
        assert forall|i: int| 0 <= i < head.len() implies is_one_line(#[trigger] head[i]) by {
            assert(head[i] == ls[i]);
        }
        if eol == seq!['\n'] {
            assert forall|i: int| 0 <= i < head.len() implies !ends_in_cr(#[trigger] head[i]) by {
                assert(head[i] == ls[i]);
            }
        }
        lemma_lines_of_flat(head, eol);
        let before = flat(head, eol);
        lemma_lines_append(before, x, eol);
        assert(head.push(x) =~= ls);
    }
}

/// Appending one more ended line to a text that is empty or ends in a line
/// feed appends that line to its lines.
pub proof fn lemma_lines_append(before: Seq<char>, x: Seq<char>, eol: Seq<char>)
    requires
        is_ending(eol),
        is_one_line(x),
        eol == seq!['\n'] ==> !ends_in_cr(x),
        before.len() > 0 ==> before.last() == '\n',
    ensures
        lines(before + x + eol) == lines(before).push(x),
        has_crlf(before + x + eol) <==> has_crlf(before) || eol == seq!['\r', '\n'],
    decreases before.len(),
{
    let s = before + x + eol;
    let tail = x + eol;
    if before.len() == 0 {
        assert(s =~= tail);
        let n = if eol == seq!['\n'] {
            x.len() as int
        } else {
            x.len() as int + 1
        };
        assert forall|j: int| 0 <= j < n implies CharClass::Line.holds(#[trigger] tail[j]) by {
            if j < x.len() {
                assert(tail[j] == x[j]);
            }
        }
        assert(tail[n] == '\n');
        lemma_run_is(tail, CharClass::Line, n);
        assert(tail.skip(n + 1) =~= Seq::<char>::empty());
        assert(chomp(tail.take(n)) =~= x) by {
            if eol == seq!['\n'] {
                assert(tail.take(n) =~= x);
            } else {
                assert(tail.take(n) =~= x.push('\r'));
                assert(x.push('\r').drop_last() =~= x);
            }
        }
        assert(lines(Seq::<char>::empty()) =~= Seq::<Seq<char>>::empty());
        assert(lines(tail) == seq![chomp(tail.take(n))] + lines(tail.skip(n + 1)));
        assert(lines(tail) =~= seq![x]);
        assert(lines(before) =~= Seq::<Seq<char>>::empty());
        assert(seq![x] =~= lines(before).push(x));
        assert(!has_crlf(before));
        if eol == seq!['\n'] {
            if has_crlf(tail) {
                let k = choose|k: int|
                    0 <= k && k + 1 < tail.len() && tail[k] == '\r' && #[trigger] tail[k + 1]
                        == '\n';
                assert(k + 1 == x.len());
                assert(x.last() == '\r');
            }
        } else {
            assert(tail[x.len() as int] == '\r');
            assert(tail[x.len() as int + 1] == '\n');
        }
    } else {
        let n = run(before, CharClass::Line);
        lemma_run_ends(before, CharClass::Line);
        assert(n < before.len()) by {
            if n >= before.len() {
                assert(CharClass::Line.holds(before[before.len() - 1]));
            }
        }
        assert forall|j: int| 0 <= j < n implies CharClass::Line.holds(#[trigger] s[j]) by {
            assert(s[j] == before[j]);
        }
        assert(s[n] == before[n]);
        lemma_run_is(s, CharClass::Line, n);
        let rest = before.skip(n + 1);
        assert(s.skip(n + 1) =~= rest + x + eol);
        assert(s.take(n) =~= before.take(n));
        if rest.len() > 0 {
            assert(rest.last() == before.last());
        }
        lemma_lines_append(rest, x, eol);
        assert(lines(s) =~= seq![chomp(before.take(n))] + lines(rest).push(x));
        assert(lines(before) =~= seq![chomp(before.take(n))] + lines(rest));
        assert(lines(s) =~= lines(before).push(x));
        // the pair of carriage return and line feed
        if has_crlf(before) {
            let k = choose|k: int|
                0 <= k && k + 1 < before.len() && before[k] == '\r' && #[trigger] before[k + 1]
                    == '\n';
            assert(s[k] == '\r');
            assert(s[k + 1] == '\n');
        }
        if eol == seq!['\r', '\n'] {
            let k = (before.len() + x.len()) as int;
            assert(s[k] == '\r');
            assert(s[k + 1] == '\n');
        }
        if has_crlf(s) && !has_crlf(before) && eol == seq!['\n'] {
            let k = choose|k: int|
                0 <= k && k + 1 < s.len() && s[k] == '\r' && #[trigger] s[k + 1] == '\n';
            if k + 1 < before.len() {
                assert(before[k] == '\r');
                assert(before[k + 1] == '\n');
            } else if k + 1 == before.len() + x.len() {
                if x.len() > 0 {
                    assert(s[k] == x[x.len() - 1]);
                    assert(x.last() == '\r');
                } else {
                    assert(s[k] == before.last());
                }
            } else {
                assert(s[k + 1] == x[k + 1 - before.len()]);
            }
        }
    }
}

/// The lines `ls`, each rewritten.
pub open spec fn rewritten_lines(ls: Seq<Seq<char>>, spec: HostSpecView) -> Seq<Seq<char>> {
    Seq::new(ls.len(), |i: int| rewritten_line(ls[i], spec))
}

/// Rendering lines is rewriting each and then ending and joining them.
pub proof fn lemma_rendered_is_flat(ls: Seq<Seq<char>>, spec: HostSpecView, eol: Seq<char>)
    ensures
        rendered(ls, spec, eol) == flat(rewritten_lines(ls, spec), eol),
    decreases ls.len(),
{
    if ls.len() > 0 {
        lemma_rendered_is_flat(ls.drop_last(), spec, eol);
        assert(rewritten_lines(ls, spec).drop_last() =~= rewritten_lines(ls.drop_last(), spec));
    }
}

/// Hosts idempotence. On a hosts file that is well formed for `spec`, the
/// file that one application of `spec` leaves is left as it is by a second
/// application.
pub proof fn lemma_rewrite_settles(content: Seq<char>, spec: HostSpecView)
    requires
        well_formed(content, spec),
    ensures
        rewritten_hosts(rewritten_hosts(content, spec), spec) == rewritten_hosts(content, spec),
{
    let ls = lines(content);
    let eol = line_ending(content);
    let once = rewritten_hosts(content, spec);
    let ls1 = rewritten_lines(ls, spec);
    lemma_rendered_is_flat(ls, spec, eol);
    assert(once =~= flat(ls1, eol));
    lemma_lines_are_lines(content);
    // each rewritten line is one line, settled, and matches as before
    assert forall|i: int| 0 <= i < ls1.len() implies is_one_line(#[trigger] ls1[i]) && (eol
        == seq!['\n'] ==> !ends_in_cr(ls1[i])) && rewritten_line(ls1[i], spec) == ls1[i]
        && is_line_of(ls1[i], spec.ip) == is_line_of(ls[i], spec.ip) by {
        let line = ls[i];
        if is_line_of(line, spec.ip) {
            lemma_rewritten_line_of(line, spec);
            let again = listed(spec.hosts, names(line));
            assert(again =~= Seq::<Seq<char>>::empty());
            assert(names(ls1[i]) =~= names(line));
            assert(ls1[i].len() > 0 ==> ls1[i].last() != '\r');
        } else {
            assert(ls1[i] == line);
            assert(is_one_line(line));
            if eol == seq!['\n'] && ends_in_cr(line) {
                assert(has_crlf(content) || ends_in_cr(content));
            }
        }
    }
    lemma_lines_of_flat(ls1, eol);
    assert(lines(once) == ls1);
    let w = choose|w: int| 0 <= w < ls.len() && is_line_of(#[trigger] ls[w], spec.ip);
    assert(is_line_of(ls1[w], spec.ip));
    assert(any_line_of(ls1, spec.ip));
    assert(line_ending(once) == eol);
    lemma_rendered_is_flat(ls1, spec, eol);
    assert(rewritten_lines(ls1, spec) =~= ls1);
}

} // verus!
