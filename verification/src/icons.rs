//! Service icons: the vendored Simple Icons subset, looked up by a slug
//! derived from the service name or given by the `routecrab.io/icon` annotation.
use vstd::prelude::*;

use crate::text::{
    ascii_lower, chars_of, has_suffix, is_ascii_text, lookup_pair, lowercase_of, pair_views,
    pairs_map, push_char, str_eq, to_lowercase,
};

verus! {

/// What `String::from_utf8_lossy` makes of some bytes.
pub uninterp spec fn utf8_lossy_of(bytes: Seq<u8>) -> Seq<char>;

/// `String::from_utf8_lossy`, owned. The replacement of malformed sequences
/// by U+FFFD is not restated: the result is named `utf8_lossy_of`.
#[verifier::external_body]
fn utf8_lossy(bytes: &[u8]) -> (s: String)
    ensures
        s@ == utf8_lossy_of(bytes@),
{
    String::from_utf8_lossy(bytes).into_owned()
}

/// An embedded icon file: its name (such as `grafana.svg`) and its bytes.
pub struct IconFile {
    pub name: String,
    pub data: Vec<u8>,
}

/// The (slug, SVG) pairs that the `.svg` files among `files` give, in order.
pub open spec fn icon_pairs(files: Seq<IconFile>) -> Seq<(Seq<char>, Seq<char>)>
    decreases files.len(),
{
    if files.len() == 0 {
        Seq::empty()
    } else {
        let prev = icon_pairs(files.drop_last());
        let f = files.last();
        if has_suffix(f.name@, ".svg"@) {
            prev.push((f.name@.subrange(0, f.name@.len() - 4), utf8_lossy_of(f.data@)))
        } else {
            prev
        }
    }
}

/// The icons by slug: SVG markup keyed by the file name without `.svg`.
pub struct IconIndex {
    icons: Vec<(String, String)>,
}

impl View for IconIndex {
    type V = Map<Seq<char>, Seq<char>>;

    closed spec fn view(&self) -> Map<Seq<char>, Seq<char>> {
        pairs_map(pair_views(self.icons@))
    }
}

impl IconIndex {
    /// Indexes the `.svg` files by slug; other files are skipped, and a later
    /// file with the same slug replaces an earlier one.
    pub fn from_files(files: &Vec<IconFile>) -> (idx: IconIndex)
        ensures
            idx@ == pairs_map(icon_pairs(files@)),
    {
        let mut icons: Vec<(String, String)> = Vec::new();
        let mut i: usize = 0;
        let svg = chars_of(".svg");
        assert(".svg"@.len() == 4) by {
            reveal_strlit(".svg");
        }
        assert(files@.subrange(0, 0) =~= Seq::<IconFile>::empty());
        assert(pair_views(icons@) =~= icon_pairs(files@.subrange(0, 0)));
        while i < files.len()
            invariant
                i <= files.len(),
                svg@ == ".svg"@,
                svg@.len() == 4,
                pair_views(icons@) == icon_pairs(files@.subrange(0, i as int)),
            decreases files.len() - i,
        {
            let f = &files[i];
            let name = chars_of(f.name.as_str());
            assert(files@.subrange(0, i + 1).drop_last() =~= files@.subrange(0, i as int));
            assert(files@.subrange(0, i + 1).last() == files@[i as int]);
            if crate::text::ends_with(&name, &svg) {
                let mut slug = String::new();
                let stop = name.len() - 4;
                let mut k: usize = 0;
                while k < stop
                    invariant
                        stop <= name.len(),
                        k <= stop,
                        slug@ == name@.subrange(0, k as int),
                    decreases stop - k,
                {
                    push_char(&mut slug, name[k]);
                    k = k + 1;
                    assert(slug@ =~= name@.subrange(0, k as int));
                }
                let text = utf8_lossy(f.data.as_slice());
                let ghost before = pair_views(icons@);
                icons.push((slug, text));
                assert(pair_views(icons@) =~= before.push((slug@, text@)));
            }
            i = i + 1;
        }
        assert(files@.subrange(0, files.len() as int) =~= files@);
        IconIndex { icons }
    }

    /// The SVG markup for a slug, if vendored.
    pub fn get(&self, slug: &str) -> (r: Option<&str>)
        ensures
            r is Some <==> self@.dom().contains(slug@),
            r matches Some(s) ==> s@ == self@[slug@],
    {
        match lookup_pair(&self.icons, slug) {
            Some(s) => Some(s.as_str()),
            None => None,
        }
    }
}

/// ASCII letters and digits.
pub open spec fn is_ascii_alnum(c: char) -> bool {
    ('a' <= c <= 'z') || ('A' <= c <= 'Z') || ('0' <= c <= '9')
}

/// What one (already lowercased) character contributes to a slug: `.` becomes
/// `dot`, `+` becomes `plus`, ASCII letters and digits stay, the rest is dropped.
pub open spec fn slug_piece(c: char) -> Seq<char> {
    if c == '.' {
        seq!['d', 'o', 't']
    } else if c == '+' {
        seq!['p', 'l', 'u', 's']
    } else if is_ascii_alnum(c) {
        seq![c]
    } else {
        Seq::empty()
    }
}

/// The slug of an already lowercased text.
pub open spec fn slug_chars(s: Seq<char>) -> Seq<char>
    decreases s.len(),
{
    if s.len() == 0 {
        Seq::empty()
    } else {
        slug_chars(s.drop_last()) + slug_piece(s.last())
    }
}

/// The slug of a display name: lowercased, `.` to `dot`, `+` to `plus`, and
/// everything but ASCII letters and digits dropped.
pub open spec fn slugify_spec(name: Seq<char>) -> Seq<char> {
    slug_chars(lowercase_of(name))
}

/// How a slug grows by one (already lowercased) character: `.` adds `dot`,
/// `+` adds `plus`, an ASCII letter or digit adds itself, anything else adds
/// nothing; and the slug of a concatenation is the concatenation of slugs.
pub proof fn lemma_slug_growth(s: Seq<char>, c: char, t: Seq<char>)
    ensures
        c == '.' ==> slug_chars(s.push(c)) == slug_chars(s) + "dot"@,
        c == '+' ==> slug_chars(s.push(c)) == slug_chars(s) + "plus"@,
        is_ascii_alnum(c) ==> slug_chars(s.push(c)) == slug_chars(s).push(c),
        c != '.' && c != '+' && !is_ascii_alnum(c) ==> slug_chars(s.push(c)) == slug_chars(s),
        slug_chars(s + t) == slug_chars(s) + slug_chars(t),
    decreases t.len(),
{
    reveal_strlit("dot");
    reveal_strlit("plus");
    assert(s.push(c).drop_last() =~= s);
    assert(slug_chars(s.push(c)) == slug_chars(s) + slug_piece(c));
    if c == '.' {
        assert(slug_piece(c) =~= "dot"@);
    }
    if c == '+' {
        assert(slug_piece(c) =~= "plus"@);
    }
    if is_ascii_alnum(c) {
        assert(slug_chars(s) + seq![c] =~= slug_chars(s).push(c));
    }
    if c != '.' && c != '+' && !is_ascii_alnum(c) {
        assert(slug_chars(s) + Seq::<char>::empty() =~= slug_chars(s));
    }
    if t.len() == 0 {
        assert(s + t =~= s);
        assert(slug_chars(s) + slug_chars(t) =~= slug_chars(s));
    } else {
        lemma_slug_growth(s, c, t.drop_last());
        assert((s + t).drop_last() =~= s + t.drop_last());
        assert((s + t).last() == t.last());
        assert(slug_chars(s + t) == slug_chars(s + t.drop_last()) + slug_piece(t.last()));
        assert(slug_chars(t) == slug_chars(t.drop_last()) + slug_piece(t.last()));
        assert(slug_chars(s) + slug_chars(t.drop_last()) + slug_piece(t.last()) =~= slug_chars(s)
            + (slug_chars(t.drop_last()) + slug_piece(t.last())));
    }
}

/// Appends the slug contribution of `c` to `out`.
fn push_slug_piece(out: &mut String, c: char)
    ensures
        final(out)@ == old(out)@ + slug_piece(c),
{
    if c == '.' {
        push_char(out, 'd');
        push_char(out, 'o');
        push_char(out, 't');
        assert(final(out)@ =~= old(out)@ + slug_piece(c));
    } else if c == '+' {
        push_char(out, 'p');
        push_char(out, 'l');
        push_char(out, 'u');
        push_char(out, 's');
        assert(final(out)@ =~= old(out)@ + slug_piece(c));
    } else if ('a' <= c && c <= 'z') || ('A' <= c && c <= 'Z') || ('0' <= c && c <= '9') {
        push_char(out, c);
        assert(final(out)@ =~= old(out)@ + slug_piece(c));
    } else {
        assert(final(out)@ =~= old(out)@ + slug_piece(c));
    }
}

/// The slug of an already lowercased text.
pub fn slug_from_lowercase(lowered: &str) -> (s: String)
    ensures
        s@ == slug_chars(lowered@),
{
    let v = chars_of(lowered);
    let mut out = String::new();
    let mut i: usize = 0;
    assert(v@.subrange(0, 0) =~= Seq::<char>::empty());
    while i < v.len()
        invariant
            i <= v.len(),
            out@ == slug_chars(v@.subrange(0, i as int)),
        decreases v.len() - i,
    {
        push_slug_piece(&mut out, v[i]);
        assert(v@.subrange(0, i + 1).drop_last() =~= v@.subrange(0, i as int));
        i = i + 1;
    }
    assert(v@.subrange(0, v.len() as int) =~= v@);
    out
}

/// A character that a slug of an ASCII name is made of: a lowercase ASCII
/// letter or a digit.
pub open spec fn is_slug_char(c: char) -> bool {
    ('a' <= c <= 'z') || ('0' <= c <= '9')
}

/// Every character of `s` is a lowercase ASCII letter or a digit.
pub open spec fn is_slug_text(s: Seq<char>) -> bool {
    forall|i: int| 0 <= i < s.len() ==> is_slug_char(#[trigger] s[i])
}

/// Slugifies a display name to match Simple Icons conventions. The result is
/// made of lowercase ASCII letters and digits only, and a slug slugifies to
/// itself, so slugifying twice gives what slugifying once gives.
pub fn slugify(name: &str) -> (s: String)
    ensures
        s@ == slugify_spec(name@),
        is_slug_text(s@),
        is_ascii_text(name@) ==> s@ == slug_chars(ascii_lower(name@)),
        is_slug_text(name@) ==> s@ == name@,
{
    let lowered = to_lowercase(name);
    proof {
        lemma_slug_of_uncapitalized(lowered@);
        if is_slug_text(name@) {
            lemma_slug_text_fixed(name@);
        }
    }
    slug_from_lowercase(lowered.as_str())
}

/// The slug of a text without ASCII capitals is made of lowercase letters and
/// digits.
pub proof fn lemma_slug_of_uncapitalized(s: Seq<char>)
    requires
        forall|i: int| 0 <= i < s.len() ==> !('A' <= #[trigger] s[i] <= 'Z'),
    ensures
        is_slug_text(slug_chars(s)),
    decreases s.len(),
{
    if s.len() > 0 {
        let d = s.drop_last();
        assert forall|i: int| 0 <= i < d.len() implies !('A' <= #[trigger] d[i] <= 'Z') by {
            assert(d[i] == s[i]);
        }
        lemma_slug_of_uncapitalized(d);
        let p = slug_chars(d);
        let q = slug_piece(s.last());
        let t = slug_chars(s);
        assert(!('A' <= s[s.len() - 1] <= 'Z'));
        assert forall|i: int| 0 <= i < t.len() implies is_slug_char(#[trigger] t[i]) by {
            if i < p.len() {
                assert(t[i] == p[i]);
            } else {
                assert(t[i] == q[i - p.len()]);
            }
        }
    }
}

/// Text made of lowercase letters and digits is its own ASCII lowercase and
/// its own slug.
pub proof fn lemma_slug_text_fixed(t: Seq<char>)
    requires
        is_slug_text(t),
    ensures
        ascii_lower(t) == t,
        slug_chars(t) == t,
    decreases t.len(),
{
    assert(ascii_lower(t) =~= t);
    if t.len() > 0 {
        assert(is_slug_char(t[t.len() - 1]));
        assert(is_slug_text(t.drop_last())) by {
            assert forall|i: int| 0 <= i < t.drop_last().len() implies is_slug_char(
                #[trigger] t.drop_last()[i],
            ) by {
                assert(t.drop_last()[i] == t[i]);
            }
        }
        lemma_slug_text_fixed(t.drop_last());
        assert(slug_piece(t.last()) =~= seq![t.last()]);
        assert(t.drop_last() + seq![t.last()] =~= t);
    }
}

/// A slug contains only ASCII letters and digits.
pub proof fn lemma_slug_is_alphanumeric(s: Seq<char>)
    ensures
        forall|i: int| 0 <= i < slug_chars(s).len() ==> is_ascii_alnum(#[trigger] slug_chars(s)[i]),
    decreases s.len(),
{
    if s.len() > 0 {
        lemma_slug_is_alphanumeric(s.drop_last());
        let p = slug_chars(s.drop_last());
        let q = slug_piece(s.last());
        assert forall|i: int| 0 <= i < slug_chars(s).len() implies is_ascii_alnum(
            #[trigger] slug_chars(s)[i],
        ) by {
            if i < p.len() {
                assert(slug_chars(s)[i] == p[i]);
            } else {
                assert(slug_chars(s)[i] == q[i - p.len()]);
            }
        }
    }
}

/// Common service slugs mapped to the vendored Simple Icons slug; any other
/// slug maps to itself.
pub open spec fn canonical_spec(slug: Seq<char>) -> Seq<char> {
    if slug == "argocd"@ {
        "argo"@
    } else if slug == "k8s"@ {
        "kubernetes"@
    } else if slug == "postgres"@ {
        "postgresql"@
    } else if slug == "kafka"@ {
        "apachekafka"@
    } else if slug == "traefik"@ {
        "traefikproxy"@
    } else if slug == "nats"@ {
        "natsdotio"@
    } else if slug == "vaultproject"@ {
        "vault"@
    } else if slug == "sonarqube"@ {
        "sonar"@
    } else if slug == "victorialogs"@ || slug == "victorialogsvmui"@ || slug
        == "victoriametricsvmui"@ {
        "victoriametrics"@
    } else {
        slug
    }
}

/// Every alias target is canonical already: mapping twice maps once.
pub proof fn lemma_canonical_idempotent(slug: Seq<char>)
    ensures
        canonical_spec(canonical_spec(slug)) == canonical_spec(slug),
{
    lemma_target_fixed("argo"@);
    lemma_target_fixed("kubernetes"@);
    lemma_target_fixed("postgresql"@);
    lemma_target_fixed("apachekafka"@);
    lemma_target_fixed("traefikproxy"@);
    lemma_target_fixed("natsdotio"@);
    lemma_target_fixed("vault"@);
    lemma_target_fixed("sonar"@);
    lemma_target_fixed("victoriametrics"@);
}

proof fn lemma_target_fixed(t: Seq<char>)
    requires
        t == "argo"@ || t == "kubernetes"@ || t == "postgresql"@ || t == "apachekafka"@ || t
            == "traefikproxy"@ || t == "natsdotio"@ || t == "vault"@ || t == "sonar"@ || t
            == "victoriametrics"@,
    ensures
        canonical_spec(t) == t,
{
    reveal_strlit("argocd");
    reveal_strlit("argo");
    reveal_strlit("k8s");
    reveal_strlit("kubernetes");
    reveal_strlit("postgres");
    reveal_strlit("postgresql");
    reveal_strlit("kafka");
    reveal_strlit("apachekafka");
    reveal_strlit("traefik");
    reveal_strlit("traefikproxy");
    reveal_strlit("nats");
    reveal_strlit("natsdotio");
    reveal_strlit("vaultproject");
    reveal_strlit("vault");
    reveal_strlit("sonarqube");
    reveal_strlit("sonar");
    reveal_strlit("victorialogs");
    reveal_strlit("victorialogsvmui");
    reveal_strlit("victoriametricsvmui");
    reveal_strlit("victoriametrics");
    assert(t.len() != "argocd"@.len() || t[0] != "argocd"@[0] || t[4] != "argocd"@[4]);
    assert(t != "argocd"@);
    assert(t.len() != "k8s"@.len() || t[1] != "k8s"@[1]);
    assert(t != "k8s"@);
    assert(t.len() != "postgres"@.len());
    assert(t != "postgres"@);
    assert(t.len() != "kafka"@.len() || t[0] != "kafka"@[0]);
    assert(t != "kafka"@);
    assert(t.len() != "traefik"@.len());
    assert(t != "traefik"@);
    assert(t.len() != "nats"@.len() || t[0] != "nats"@[0]);
    assert(t != "nats"@);
    assert(t.len() != "vaultproject"@.len() || t[0] != "vaultproject"@[0]);
    assert(t != "vaultproject"@);
    assert(t.len() != "sonarqube"@.len() || t[0] != "sonarqube"@[0]);
    assert(t != "sonarqube"@);
    assert(t.len() != "victorialogs"@.len() || t[0] != "victorialogs"@[0]);
    assert(t != "victorialogs"@);
    assert(t.len() != "victorialogsvmui"@.len());
    assert(t != "victorialogsvmui"@);
    assert(t.len() != "victoriametricsvmui"@.len());
    assert(t != "victoriametricsvmui"@);
}

/// The aliases the documentation lists: a service slug and the vendored
/// Simple Icons slug it stands for.
pub open spec fn documented_alias(key: Seq<char>, target: Seq<char>) -> bool {
    ||| (key == "argocd"@ && target == "argo"@)
    ||| (key == "k8s"@ && target == "kubernetes"@)
    ||| (key == "postgres"@ && target == "postgresql"@)
    ||| (key == "kafka"@ && target == "apachekafka"@)
    ||| (key == "traefik"@ && target == "traefikproxy"@)
    ||| (key == "nats"@ && target == "natsdotio"@)
    ||| (key == "vaultproject"@ && target == "vault"@)
    ||| (key == "sonarqube"@ && target == "sonar"@)
    ||| (key == "victorialogs"@ && target == "victoriametrics"@)
    ||| (key == "victorialogsvmui"@ && target == "victoriametrics"@)
    ||| (key == "victoriametricsvmui"@ && target == "victoriametrics"@)
}

/// Every documented alias resolves to its vendored target: a service whose
/// slug (or lowercased override) is the alias gets the target's icon whenever
/// the index holds it, e.g. `traefik` finds `traefikproxy`.
pub proof fn lemma_documented_aliases(
    key: Seq<char>,
    target: Seq<char>,
    index: Map<Seq<char>, Seq<char>>,
    name: Seq<char>,
    override_slug: Seq<char>,
)
    requires
        documented_alias(key, target),
    ensures
        canonical_spec(key) == target,
        icon_slug_spec(name, override_slug) == key && index.dom().contains(target) ==> icon_spec(
            index,
            name,
            override_slug,
        ) == Some(index[target]),
{
    reveal_strlit("apachekafka");
    reveal_strlit("argo");
    reveal_strlit("argocd");
    reveal_strlit("k8s");
    reveal_strlit("kafka");
    reveal_strlit("kubernetes");
    reveal_strlit("nats");
    reveal_strlit("natsdotio");
    reveal_strlit("postgres");
    reveal_strlit("postgresql");
    reveal_strlit("sonar");
    reveal_strlit("sonarqube");
    reveal_strlit("traefik");
    reveal_strlit("traefikproxy");
    reveal_strlit("vault");
    reveal_strlit("vaultproject");
    reveal_strlit("victorialogs");
    reveal_strlit("victorialogsvmui");
    reveal_strlit("victoriametrics");
    reveal_strlit("victoriametricsvmui");
    if key == "argocd"@ {

    }
    if key == "k8s"@ {
        assert(key.len() != "argocd"@.len());
    }
    if key == "postgres"@ {
        assert(key.len() != "argocd"@.len());
        assert(key.len() != "k8s"@.len());
    }
    if key == "kafka"@ {
        assert(key.len() != "argocd"@.len());
        assert(key.len() != "k8s"@.len());
        assert(key.len() != "postgres"@.len());
    }
    if key == "traefik"@ {
        assert(key.len() != "argocd"@.len());
        assert(key.len() != "k8s"@.len());
        assert(key.len() != "postgres"@.len());
        assert(key.len() != "kafka"@.len());
    }
    if key == "nats"@ {
        assert(key.len() != "argocd"@.len());
        assert(key.len() != "k8s"@.len());
        assert(key.len() != "postgres"@.len());
        assert(key.len() != "kafka"@.len());
        assert(key.len() != "traefik"@.len());
    }
    if key == "vaultproject"@ {
        assert(key.len() != "argocd"@.len());
        assert(key.len() != "k8s"@.len());
        assert(key.len() != "postgres"@.len());
        assert(key.len() != "kafka"@.len());
        assert(key.len() != "traefik"@.len());
        assert(key.len() != "nats"@.len());
    }
    if key == "sonarqube"@ {
        assert(key.len() != "argocd"@.len());
        assert(key.len() != "k8s"@.len());
        assert(key.len() != "postgres"@.len());
        assert(key.len() != "kafka"@.len());
        assert(key.len() != "traefik"@.len());
        assert(key.len() != "nats"@.len());
        assert(key.len() != "vaultproject"@.len());
    }
    if key == "victorialogs"@ {
        assert(key.len() != "argocd"@.len());
        assert(key.len() != "k8s"@.len());
        assert(key.len() != "postgres"@.len());
        assert(key.len() != "kafka"@.len());
        assert(key.len() != "traefik"@.len());
        assert(key.len() != "nats"@.len());
        assert(key[1] != "vaultproject"@[1]);
        assert(key.len() != "sonarqube"@.len());
    }
    if key == "victorialogsvmui"@ {
        assert(key.len() != "argocd"@.len());
        assert(key.len() != "k8s"@.len());
        assert(key.len() != "postgres"@.len());
        assert(key.len() != "kafka"@.len());
        assert(key.len() != "traefik"@.len());
        assert(key.len() != "nats"@.len());
        assert(key.len() != "vaultproject"@.len());
        assert(key.len() != "sonarqube"@.len());
        assert(key.len() != "victorialogs"@.len());
    }
    if key == "victoriametricsvmui"@ {
        assert(key.len() != "argocd"@.len());
        assert(key.len() != "k8s"@.len());
        assert(key.len() != "postgres"@.len());
        assert(key.len() != "kafka"@.len());
        assert(key.len() != "traefik"@.len());
        assert(key.len() != "nats"@.len());
        assert(key.len() != "vaultproject"@.len());
        assert(key.len() != "sonarqube"@.len());
        assert(key.len() != "victorialogs"@.len());
        assert(key.len() != "victorialogsvmui"@.len());
    }
}

/// Maps a service slug to the canonical vendored slug (e.g. `argocd` to `argo`).
pub fn canonical_slug(slug: &str) -> (r: &str)
    ensures
        r@ == canonical_spec(slug@),
{
    if str_eq(slug, "argocd") {
        "argo"
    } else if str_eq(slug, "k8s") {
        "kubernetes"
    } else if str_eq(slug, "postgres") {
        "postgresql"
    } else if str_eq(slug, "kafka") {
        "apachekafka"
    } else if str_eq(slug, "traefik") {
        "traefikproxy"
    } else if str_eq(slug, "nats") {
        "natsdotio"
    } else if str_eq(slug, "vaultproject") {
        "vault"
    } else if str_eq(slug, "sonarqube") {
        "sonar"
    } else if str_eq(slug, "victorialogs") || str_eq(slug, "victorialogsvmui") || str_eq(
        slug,
        "victoriametricsvmui",
    ) {
        "victoriametrics"
    } else {
        slug
    }
}

/// The slug looked up for a service: the lowercased override when it is not
/// empty, else the slugified name.
pub open spec fn icon_slug_spec(name: Seq<char>, override_slug: Seq<char>) -> Seq<char> {
    if override_slug.len() == 0 {
        slugify_spec(name)
    } else {
        lowercase_of(override_slug)
    }
}

/// The icon for a service, as the index holds it.
pub open spec fn icon_spec(
    index: Map<Seq<char>, Seq<char>>,
    name: Seq<char>,
    override_slug: Seq<char>,
) -> Option<Seq<char>> {
    let key = canonical_spec(icon_slug_spec(name, override_slug));
    if index.dom().contains(key) {
        Some(index[key])
    } else {
        None
    }
}

/// The embedded SVG for a service icon: resolved from `override_slug` when it
/// is not empty (case-insensitively), else from `name` slugified, then mapped
/// through the canonical aliases. `None` when no matching icon is vendored.
pub fn icon_for<'a>(index: &'a IconIndex, name: &str, override_slug: &str) -> (r: Option<&'a str>)
    ensures
        match icon_spec(index@, name@, override_slug@) {
            Some(svg) => r is Some && r.unwrap()@ == svg,
            None => r is None,
        },
{
    let ov = chars_of(override_slug);
    let slug = if ov.len() == 0 {
        slugify(name)
    } else {
        to_lowercase(override_slug)
    };
    index.get(canonical_slug(slug.as_str()))
}

/// A non-empty override decides the icon alone: the service name is not used.
pub proof fn lemma_override_wins(
    index: Map<Seq<char>, Seq<char>>,
    name1: Seq<char>,
    name2: Seq<char>,
    override_slug: Seq<char>,
)
    requires
        override_slug.len() > 0,
    ensures
        icon_spec(index, name1, override_slug) == icon_spec(index, name2, override_slug),
{
}

} // verus!
