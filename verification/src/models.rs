//! The catalogue of Whisper models, where they are stored, and byte counts for people.
use vstd::prelude::*;
use crate::decimal::{dec, push_dec};
use crate::paths::{StoragePath, StoragePathView, StorageRoot, app_data_path, path_buf_as_path, path_exists, platform_data_dir};
use std::path::{Path, PathBuf};

verus! {

broadcast use vstd::string::group_string_axioms;

/// One Whisper model that can be downloaded and used.
#[derive(Clone, Copy)]
pub struct ModelDef {
    pub id: &'static str,
    pub name: &'static str,
    pub size: &'static str,
    pub note: &'static str,
    pub speed: i32,
    pub quality: i32,
    pub file: &'static str,
    pub url: &'static str,
}

/// A model's description as plain values.
pub struct ModelInfo {
    pub id: Seq<char>,
    pub name: Seq<char>,
    pub size: Seq<char>,
    pub note: Seq<char>,
    pub speed: i32,
    pub quality: i32,
    pub file: Seq<char>,
    pub url: Seq<char>,
}

impl View for ModelDef {
    type V = ModelInfo;

    open spec fn view(&self) -> ModelInfo {
        ModelInfo {
            id: self.id@,
            name: self.name@,
            size: self.size@,
            note: self.note@,
            speed: self.speed,
            quality: self.quality,
            file: self.file@,
            url: self.url@,
        }
    }
}

/// The models on offer, fastest first.
pub open spec fn catalogue() -> Seq<ModelInfo> {
    seq![
        ModelInfo {
            id: "lite"@,
            name: "Lite"@,
            size: "190 MB"@,
            note: "Veloce \u{00b7} ottimo per appunti rapidi"@,
            speed: 4,
            quality: 2,
            file: "ggml-small-q5_1.bin"@,
            url: "https://huggingface.co/ggerganov/whisper.cpp/resolve/main/ggml-small-q5_1.bin"@,
        },
        ModelInfo {
            id: "medium"@,
            name: "Medium"@,
            size: "515 MB"@,
            note: "Bilanciato tra velocit\u{00e0} e accuratezza"@,
            speed: 3,
            quality: 3,
            file: "ggml-medium-q5_0.bin"@,
            url: "https://huggingface.co/ggerganov/whisper.cpp/resolve/main/ggml-medium-q5_0.bin"@,
        },
        ModelInfo {
            id: "turbo"@,
            name: "Large Turbo"@,
            size: "574 MB"@,
            note: "Massima accuratezza, ottimizzato"@,
            speed: 3,
            quality: 4,
            file: "ggml-large-v3-turbo-q5_0.bin"@,
            url: "https://huggingface.co/ggerganov/whisper.cpp/resolve/main/ggml-large-v3-turbo-q5_0.bin"@,
        },
    ]
}

/// The first of `models` whose id is `id`.
pub open spec fn find_in(models: Seq<ModelInfo>, id: Seq<char>) -> Option<ModelInfo>
    decreases models.len(),
{
    if models.len() == 0 {
        None
    } else if models[0].id == id {
        Some(models[0])
    } else {
        find_in(models.drop_first(), id)
    }
}

/// The catalogue's model with id `id`.
pub open spec fn lookup(id: Seq<char>) -> Option<ModelInfo> {
    find_in(catalogue(), id)
}

/// The models on offer.
pub fn registry() -> (r: Vec<ModelDef>)
    ensures
        r.len() == catalogue().len(),
        forall|i: int| 0 <= i < r.len() ==> #[trigger] r[i]@ == catalogue()[i],
{
    let r = vec![
        ModelDef {
            id: "lite",
            name: "Lite",
            size: "190 MB",
            note: "Veloce \u{00b7} ottimo per appunti rapidi",
            speed: 4,
            quality: 2,
            file: "ggml-small-q5_1.bin",
            url: "https://huggingface.co/ggerganov/whisper.cpp/resolve/main/ggml-small-q5_1.bin",
        },
        ModelDef {
            id: "medium",
            name: "Medium",
            size: "515 MB",
            note: "Bilanciato tra velocit\u{00e0} e accuratezza",
            speed: 3,
            quality: 3,
            file: "ggml-medium-q5_0.bin",
            url: "https://huggingface.co/ggerganov/whisper.cpp/resolve/main/ggml-medium-q5_0.bin",
        },
        ModelDef {
            id: "turbo",
            name: "Large Turbo",
            size: "574 MB",
            note: "Massima accuratezza, ottimizzato",
            speed: 3,
            quality: 4,
            file: "ggml-large-v3-turbo-q5_0.bin",
            url: "https://huggingface.co/ggerganov/whisper.cpp/resolve/main/ggml-large-v3-turbo-q5_0.bin",
        },
    ];
    r
}

/// The catalogue's model with id `id`, if there is one.
pub fn find_model(id: &str) -> (r: Option<ModelDef>)
    ensures
        match r {
            Some(m) => lookup(id@) == Some(m@),
            None => lookup(id@) is None,
        },
{
    let models = registry();
    let mut i: usize = 0;
    assert(catalogue().skip(0) =~= catalogue());
    while i < models.len()
        invariant
            models.len() == catalogue().len(),
            forall|j: int| 0 <= j < models.len() ==> #[trigger] models[j]@ == catalogue()[j],
            i <= models.len(),
            find_in(catalogue().skip(i as int), id@) == lookup(id@),
        decreases models.len() - i,
    {
        let m = models[i];
        assert(catalogue().skip(i as int)[0] == m@);
        if crate::text::str_eq(m.id, id) {
            return Some(m);
        }
        assert(catalogue().skip(i as int).drop_first() =~= catalogue().skip(i + 1));
        i += 1;
    }
    None
}

/// Whether `v` is where models are kept for the chosen data directory: below it in
/// `models` when one is chosen; otherwise `models` in the working directory, or the
/// library's `models` folder in the platform's data directory (or in `.`).
pub open spec fn is_model_dir<'a>(v: StoragePathView<'a>, data_dir: Option<&'a Path>) -> bool {
    match data_dir {
        Some(d) => v.root == StorageRoot::<'a>::Given(d) && v.names == seq!["models"@],
        None => (v.root is Bare && v.names == seq!["models"@]) || ((v.root is DataDir || v.root is Dot)
            && v.names == seq!["scriba"@, "models"@]),
    }
}

/// The directory that holds the models: `models` below the chosen data directory; without
/// one, a `models` directory found in the working directory, else the library's folder in
/// the platform's data directory.
pub fn model_dir<'a>(data_dir: Option<&'a Path>) -> (p: StoragePath<'a>)
    ensures
        is_model_dir(p@, data_dir),
{
    match data_dir {
        Some(d) => StoragePath::new(StorageRoot::Given(d), "models"),
        None => {
            let found = path_exists(path_buf_as_path(&StoragePath::new(StorageRoot::Bare, "models").to_path_buf()));
            let platform = if found {
                None
            } else {
                platform_data_dir()
            };
            default_model_dir(found, platform)
        },
    }
}

/// The model directory when no data directory is chosen: `models` in the working directory
/// when one was found there, else the library's folder in the platform's data directory
/// (or in `.` when the platform names none).
pub fn default_model_dir<'a>(found_locally: bool, platform: Option<PathBuf>) -> (p: StoragePath<'a>)
    ensures
        found_locally ==> p@.root == StorageRoot::<'a>::Bare && p@.names == seq!["models"@],
        !found_locally ==> p@.names == seq!["scriba"@, "models"@] && match platform {
            Some(d) => p@.root == StorageRoot::<'a>::DataDir(d),
            None => p@.root == StorageRoot::<'a>::Dot,
        },
{
    if found_locally {
        StoragePath::new(StorageRoot::Bare, "models")
    } else {
        app_data_path(platform, "models")
    }
}

/// The file of the model with id `id`, if the catalogue has that model.
pub fn model_path<'a>(id: &str, data_dir: Option<&'a Path>) -> (r: Option<StoragePath<'a>>)
    ensures
        match r {
            Some(p) => match lookup(id@) {
                Some(m) => p@.names.len() >= 1 && p@.names.last() == m.file && is_model_dir(
                    StoragePathView { root: p@.root, names: p@.names.drop_last() },
                    data_dir,
                ),
                None => false,
            },
            None => lookup(id@) is None,
        },
{
    match find_model(id) {
        None => None,
        Some(m) => {
            let dir = model_dir(data_dir);
            let ghost dv = dir@;
            let p = dir.join(m.file);
            assert(p@.names.drop_last() =~= dv.names);
            Some(p)
        },
    }
}

/// Whether the model with id `id` has been downloaded: its file is found on disk. Only
/// models of the catalogue can be installed; whether a catalogue model's file is there
/// rests on the disk, so no more is stated.
pub fn is_installed(id: &str, data_dir: Option<&Path>) -> (r: bool)
    ensures
        r ==> lookup(id@) is Some,
{
    match model_path(id, data_dir) {
        Some(p) => path_exists(path_buf_as_path(&p.to_path_buf())),
        None => false,
    }
}

/// The name a model file has while it is being downloaded.
pub fn partial_file_name(file: &str) -> (name: String)
    ensures
        name@ == file@ + ".part"@,
{
    let mut name = String::from_str(file);
    name.append(".part");
    name
}

/// Bytes in a kibibyte, mebibyte and gibibyte.
pub const KIB: u64 = 1024;
pub const MIB: u64 = 1048576;
pub const GIB: u64 = 1073741824;

/// The smallest power of two below 2^53 below which values are exact in an `f64`:
/// the spacing of the doubles around `n`.
pub open spec fn f64_spacing(n: nat) -> nat
    decreases n,
{
    if n < 0x20_0000_0000_0000 {
        1
    } else {
        2 * f64_spacing(n / 2)
    }
}

/// `a / b` rounded to the nearest integer, ties to the even one.
pub open spec fn div_round_even(a: nat, b: nat) -> nat
    recommends
        b > 0,
{
    let q = a / b;
    let r = a % b;
    if 2 * r > b || (2 * r == b && q % 2 == 1) {
        q + 1
    } else {
        q
    }
}

/// The value of `n as f64`: `n` rounded to the nearest double, ties to even.
pub open spec fn f64_of(n: nat) -> nat {
    let s = f64_spacing(n);
    div_round_even(n, s) * s
}

/// `v / unit` printed with one decimal, the decimal separator a comma.
pub open spec fn one_decimal(v: nat, unit: nat) -> Seq<char> {
    let t = div_round_even(v * 10, unit);
    dec(t / 10) + seq![','] + dec(t % 10)
}

/// What `human_bytes` prints for `n` bytes.
pub open spec fn human_bytes_spec(n: nat) -> Seq<char> {
    let v = f64_of(n);
    if n >= GIB {
        one_decimal(v, GIB as nat) + " GB"@
    } else if n >= MIB {
        one_decimal(v, MIB as nat) + " MB"@
    } else if n >= KIB {
        dec(div_round_even(v, KIB as nat)) + " KB"@
    } else {
        dec(n) + " B"@
    }
}

fn round_div_even(a: u128, b: u128) -> (r: u128)
    requires
        b > 0,
    ensures
        r == div_round_even(a as nat, b as nat),
{
    let q = a / b;
    let rem = a % b;
    proof {
        vstd::arithmetic::div_mod::lemma_fundamental_div_mod(a as int, b as int);
    }
    if rem > b - rem || (rem == b - rem && q % 2 == 1) {
        assert(b >= 2);
        proof {
            vstd::arithmetic::div_mod::lemma_div_is_ordered_by_denominator(a as int, 2, b as int);
        }
        q + 1
    } else {
        q
    }
}

/// `n as f64`, as an integer.
fn f64_value(n: u64) -> (v: u128)
    ensures
        v == f64_of(n as nat),
        v <= 2 * (n as nat),
{
    let mut m: u128 = n as u128;
    let mut s: u128 = 1;
    while m >= 0x20_0000_0000_0000
        invariant
            f64_spacing(n as nat) == s * f64_spacing(m as nat),
            m == (n as nat) / (s as nat),
            1 <= s,
            s == 1 || s <= n,
            s * m <= n,
            m <= n,
        decreases m,
    {
        proof {
            assert(f64_spacing(m as nat) == 2 * f64_spacing((m / 2) as nat));
            assert(s * f64_spacing(m as nat) == (s * 2) * f64_spacing((m / 2) as nat)) by (nonlinear_arith)
                requires f64_spacing(m as nat) == 2 * f64_spacing((m / 2) as nat);
            assert((m / 2) as nat == (n as nat) / ((s * 2) as nat)) by {
                vstd::arithmetic::div_mod::lemma_div_denominator(n as int, s as int, 2);
            }
            assert(s * 2 * (m / 2) <= s * m) by (nonlinear_arith)
                requires s >= 1;
            assert(s * 2 <= n) by (nonlinear_arith)
                requires s * m <= n, m >= 2, s >= 1;
        }
        m = m / 2;
        s = s * 2;
    }
    let q = round_div_even(n as u128, s);
    proof {
        assert(f64_spacing(m as nat) == 1);
        assert(f64_spacing(n as nat) == s) by (nonlinear_arith)
            requires
                f64_spacing(n as nat) == s * f64_spacing(m as nat),
                f64_spacing(m as nat) == 1,
        ;
        assert(f64_of(n as nat) == q * s);
        assert(q <= m + 1);
        assert(q * s <= m * s + s) by (nonlinear_arith)
            requires q <= m + 1;
        assert(s * m == m * s) by (nonlinear_arith);
    }
    q * s
}

/// `n` bytes in the largest unit it reaches, the count printed exactly as `n` would be:
/// one decimal after a comma for gigabytes and megabytes, a whole number for kilobytes
/// and bytes, rounded to the nearest, ties to even.
pub open spec fn exact_bytes_text(n: nat) -> Seq<char> {
    if n >= GIB {
        one_decimal(n, GIB as nat) + " GB"@
    } else if n >= MIB {
        one_decimal(n, MIB as nat) + " MB"@
    } else if n >= KIB {
        dec(div_round_even(n, KIB as nat)) + " KB"@
    } else {
        dec(n) + " B"@
    }
}

/// Below 2^53, where every count is a double, the text of a byte count is the exact one:
/// the largest unit reached, the quotient rounded to one decimal (gigabytes, megabytes) or
/// to a whole number (kilobytes, bytes). From 2^53 on the count is first rounded to a
/// double. For every count the text holds no `.`: the decimal separator is a comma.
pub proof fn lemma_human_bytes_units(n: nat)
    ensures
        n < 0x20_0000_0000_0000 ==> human_bytes_spec(n) == exact_bytes_text(n),
        forall|i: int| 0 <= i < human_bytes_spec(n).len() ==> human_bytes_spec(n)[i] != '.',
{
    reveal_strlit(" GB");
    reveal_strlit(" MB");
    reveal_strlit(" KB");
    reveal_strlit(" B");
    if n < 0x20_0000_0000_0000 {
        assert(f64_spacing(n) == 1);
        assert(div_round_even(n, 1) == n);
        assert(f64_of(n) == n);
    }
    let v = f64_of(n);
    let t_g = div_round_even(v * 10, GIB as nat);
    let t_m = div_round_even(v * 10, MIB as nat);
    crate::decimal::lemma_dec_digits(t_g / 10);
    crate::decimal::lemma_dec_digits(t_g % 10);
    crate::decimal::lemma_dec_digits(t_m / 10);
    crate::decimal::lemma_dec_digits(t_m % 10);
    crate::decimal::lemma_dec_digits(div_round_even(v, KIB as nat));
    crate::decimal::lemma_dec_digits(n);
    let h = human_bytes_spec(n);
    assert forall|i: int| 0 <= i < h.len() implies h[i] != '.' by {
        if n >= GIB {
            let a = dec(t_g / 10);
            let b = dec(t_g % 10);
            assert(h == a + seq![','] + b + " GB"@);
            if i < a.len() {
                assert(h[i] == a[i]);
            } else if i < a.len() + 1 {
            } else if i < a.len() + 1 + b.len() {
                assert(h[i] == b[i - a.len() - 1]);
            }
        } else if n >= MIB {
            let a = dec(t_m / 10);
            let b = dec(t_m % 10);
            assert(h == a + seq![','] + b + " MB"@);
            if i < a.len() {
                assert(h[i] == a[i]);
            } else if i < a.len() + 1 {
            } else if i < a.len() + 1 + b.len() {
                assert(h[i] == b[i - a.len() - 1]);
            }
        } else if n >= KIB {
            let a = dec(div_round_even(v, KIB as nat));
            if i < a.len() {
                assert(h[i] == a[i]);
            }
        } else {
            let a = dec(n);
            if i < a.len() {
                assert(h[i] == a[i]);
            }
        }
    }
}

fn push_one_decimal(out: &mut String, v: u128, unit: u128)
    requires
        unit > 0,
        v <= 0x4_0000_0000_0000_0000,
    ensures
        final(out)@ == old(out)@ + one_decimal(v as nat, unit as nat),
{
    let t = round_div_even(v * 10, unit);
    push_dec(out, t / 10);
    proof {
        reveal_strlit(",");
    }
    out.append(",");
    push_dec(out, t % 10);
}

/// Formats a byte count for people: `"1,5 GB"`, `"3,0 MB"`, `"12 KB"`, `"512 B"`.
///
/// Gigabytes and megabytes get one decimal with a comma as separator; kilobytes are
/// rounded to a whole number; below a kilobyte the count is printed as is. As when
/// `n as f64` is formatted, `n` is first rounded to the nearest double (ties to even; this
/// changes counts from 2^53 on), and the quotient is then rounded to the digits printed,
/// to the nearest, ties to even.
pub fn human_bytes(n: u64) -> (s: String)
    ensures
        s@ == human_bytes_spec(n as nat),
{
    let v = f64_value(n);
    let mut out = String::new();
    if n >= GIB {
        push_one_decimal(&mut out, v, GIB as u128);
        out.append(" GB");
    } else if n >= MIB {
        push_one_decimal(&mut out, v, MIB as u128);
        out.append(" MB");
    } else if n >= KIB {
        push_dec(&mut out, round_div_even(v, KIB as u128));
        out.append(" KB");
    } else {
        push_dec(&mut out, n as u128);
        out.append(" B");
    }
    out
}

} // verus!
