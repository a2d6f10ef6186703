use vstd::prelude::*;
use vstd::string::StringSliceAdditionalSpecFns;

verus! {

/// Byte value of `/`.
pub open spec fn slash() -> u8 {
    47u8
}

/// Byte value of `.`.
pub open spec fn dot() -> u8 {
    46u8
}

/// The closed set of file-format categories the updater knows how to mutate.
#[derive(Clone, Copy, Debug, PartialEq, Eq, Structural)]
pub enum FormatKind {
    /// Extension `xml`, `props` or `csproj`: the XML family.  Which mutation
    /// applies is resolved later from the parsed document, not from the path.
    XmlFamily,
    /// Extension `json`: a JSON package manifest.
    JsonPackage,
    /// Extension `plist`: an Apple property list.
    Plist,
    /// A file named exactly `Chart.yaml` or `Chart.yml`: a Helm chart.
    HelmChartYaml,
    /// Anything else: no handler applies.
    Unsupported,
}

/// The path with every trailing `/` removed, so that `a/b/` names `b`.
pub open spec fn strip_trailing_slashes(p: Seq<u8>) -> Seq<u8>
    decreases p.len(),
{
    if p.len() > 0 && p.last() == slash() {
        strip_trailing_slashes(p.drop_last())
    } else {
        p
    }
}

/// What follows the last occurrence of `c` in `s`; all of `s` when `c` does
/// not occur.
pub open spec fn after_last(s: Seq<u8>, c: u8) -> Seq<u8>
    decreases s.len(),
{
    if s.len() == 0 {
        s
    } else if s.last() == c {
        Seq::empty()
    } else {
        after_last(s.drop_last(), c).push(s.last())
    }
}

/// The base file name of a path: what follows the last `/` once trailing
/// slashes are gone.
pub open spec fn base_name(p: Seq<u8>) -> Seq<u8> {
    after_last(strip_trailing_slashes(p), slash())
}

/// Whether the base name has an extension: a `.` somewhere after its first
/// byte.  A leading dot alone (as in `.gitignore`) introduces no extension.
pub open spec fn has_extension(b: Seq<u8>) -> bool {
    exists|i: int| 1 <= i < b.len() && b[i] == dot()
}

/// The extension of a base name that `has_extension` accepts: what follows
/// its last `.`.
pub open spec fn extension_of(b: Seq<u8>) -> Seq<u8> {
    after_last(b, dot())
}

/// Whether a base name is one of the two Helm chart file names.
pub open spec fn is_chart_name(b: Seq<u8>) -> bool {
    b == "Chart.yaml".spec_bytes() || b == "Chart.yml".spec_bytes()
}

/// The format a path is handled as.
///
/// The extension decides first: `xml`, `props` and `csproj` are the XML
/// family, `json` is a JSON package, `plist` a property list (all
/// case-sensitive).  Otherwise the exact base name `Chart.yaml` or
/// `Chart.yml` selects the Helm handler, and any other path is unsupported.
pub open spec fn classify_spec(p: Seq<u8>) -> FormatKind {
    let b = base_name(p);
    if has_extension(b) && {
        let e = extension_of(b);
        e == "xml".spec_bytes() || e == "props".spec_bytes() || e == "csproj".spec_bytes()
    } {
        FormatKind::XmlFamily
    } else if has_extension(b) && extension_of(b) == "json".spec_bytes() {
        FormatKind::JsonPackage
    } else if has_extension(b) && extension_of(b) == "plist".spec_bytes() {
        FormatKind::Plist
    } else if is_chart_name(b) {
        FormatKind::HelmChartYaml
    } else {
        FormatKind::Unsupported
    }
}

/// `after_last` returns the suffix that starts right after the last
/// occurrence of `c`, here given by the cut point `k`.
proof fn lemma_after_last_is_suffix(s: Seq<u8>, c: u8, k: int)
    requires
        0 <= k <= s.len(),
        forall|i: int| k <= i < s.len() ==> s[i] != c,
        k == 0 || s[k - 1] == c,
    ensures
        after_last(s, c) == s.subrange(k, s.len() as int),
    decreases s.len(),
{
    if s.len() == 0 {
        assert(after_last(s, c) =~= s.subrange(k, s.len() as int));
    } else if s.last() == c {
        assert(k == s.len());
        assert(after_last(s, c) =~= s.subrange(k, s.len() as int));
    } else {
        assert(k < s.len());
        let t = s.drop_last();
        assert(forall|i: int| k <= i < t.len() ==> t[i] == s[i]);
        lemma_after_last_is_suffix(t, c, k);
        assert(after_last(s, c) =~= s.subrange(k, s.len() as int));
    }
}

/// Compares `s[from..to]` with the bytes of a literal.
fn region_eq(s: &[u8], from: usize, to: usize, lit: &str) -> (r: bool)
    requires
        from <= to <= s@.len(),
    ensures
        r == (s@.subrange(from as int, to as int) == lit.spec_bytes()),
{
    let lb = lit.as_bytes();
    if to - from != lb.len() {
        assert(s@.subrange(from as int, to as int).len() != lit.spec_bytes().len());
        return false;
    }
    let n = lb.len();
    let mut j: usize = 0;
    while j < n
        invariant
            n == lb@.len() == to - from,
            from <= to <= s@.len(),
            lb@ == lit.spec_bytes(),
            0 <= j <= n,
            forall|i: int| 0 <= i < j ==> s@.subrange(from as int, to as int)[i] == lb@[i],
        decreases n - j,
    {
        if s[from + j] != lb[j] {
            assert(s@.subrange(from as int, to as int)[j as int] != lb@[j as int]);
            return false;
        }
        assert(s@.subrange(from as int, to as int)[j as int] == lb@[j as int]);
        j += 1;
    }
    assert(s@.subrange(from as int, to as int) =~= lb@);
    true
}

/// Maps a path to the format it will be handled as; follows `classify_spec`
/// exactly.
pub fn classify(path: &str) -> (k: FormatKind)
    ensures
        k == classify_spec(path.spec_bytes()),
{
    let bytes: &[u8] = path.as_bytes();
    let ghost p = path.spec_bytes();

    // strip trailing slashes
    let mut end: usize = bytes.len();
    assert(p.subrange(0, p.len() as int) =~= p);
    while end > 0 && bytes[end - 1] == 47
        invariant
            0 <= end <= p.len(),
            bytes@ == p,
            strip_trailing_slashes(p) == strip_trailing_slashes(p.subrange(0, end as int)),
        decreases end,
    {
        assert(p.subrange(0, end as int).drop_last() =~= p.subrange(0, end as int - 1));
        end -= 1;
    }
    let ghost stripped = p.subrange(0, end as int);
    assert(strip_trailing_slashes(p) == stripped);

    // find the start of the base name
    let mut start: usize = end;
    while start > 0 && bytes[start - 1] != 47
        invariant
            0 <= start <= end <= p.len(),
            bytes@ == p,
            forall|i: int| start <= i < end ==> p[i] != slash(),
        decreases start,
    {
        start -= 1;
    }
    proof {
        assert(forall|i: int| start <= i < stripped.len() ==> stripped[i] != slash());
        lemma_after_last_is_suffix(stripped, slash(), start as int);
        assert(stripped.subrange(start as int, stripped.len() as int) =~= p.subrange(
            start as int,
            end as int,
        ));
    }
    let ghost base = base_name(p);
    assert(base == p.subrange(start as int, end as int));

    // find the last dot strictly after the base name's first byte
    let mut j: usize = end;
    while j - start > 1 && bytes[j - 1] != 46
        invariant
            start <= end <= p.len(),
            (start as int) <= (j as int) <= end,
            start + 1 <= j || j == end,
            bytes@ == p,
            forall|i: int| j <= i < end ==> p[i] != dot(),
        decreases j,
    {
        j -= 1;
    }

    if j - start > 1 {
        // bytes[j - 1] == 46: an extension is present
        assert(base[j - 1 - start] == dot() && 1 <= j - 1 - start < base.len());
        assert(has_extension(base));
        proof {
            assert(forall|i: int| j - start <= i < base.len() ==> base[i] != dot());
            lemma_after_last_is_suffix(base, dot(), j - start);
            assert(base.subrange(j - start, base.len() as int) =~= p.subrange(
                j as int,
                end as int,
            ));
        }
        assert(extension_of(base) == p.subrange(j as int, end as int));
        if region_eq(bytes, j, end, "xml") || region_eq(bytes, j, end, "props") || region_eq(
            bytes,
            j,
            end,
            "csproj",
        ) {
            return FormatKind::XmlFamily;
        }
        if region_eq(bytes, j, end, "json") {
            return FormatKind::JsonPackage;
        }
        if region_eq(bytes, j, end, "plist") {
            return FormatKind::Plist;
        }
    } else {
        assert(forall|i: int| 1 <= i < base.len() ==> base[i] != dot());
        assert(!has_extension(base));
    }
    if region_eq(bytes, start, end, "Chart.yaml") || region_eq(bytes, start, end, "Chart.yml") {
        return FormatKind::HelmChartYaml;
    }
    FormatKind::Unsupported
}

} // verus!
