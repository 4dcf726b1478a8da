use vstd::prelude::*;
use vstd::arithmetic::div_mod::{lemma_fundamental_div_mod, lemma_fundamental_div_mod_converse};

verus! {

/// A texture image: its width and height in pixels and its raw pixel
/// bytes, one row of pixels after the other.
pub struct Textura {
    pub largura: u32,
    pub altura: u32,
    pub pixels: Vec<u8>,
}

/// What the `image` crate decodes from the bytes of a file whose name ends
/// in the extension `extensao`: `None` where the extension names no format
/// or the bytes are not an image of that format, else the width, the height
/// and the raw bytes of the picture, rows from the top down.
pub uninterp spec fn textura_de(bytes: Seq<u8>, extensao: Seq<char>) -> Option<(u32, u32, Seq<u8>)>;

/// Decodes texture bytes with the `image` crate: the format is the one that
/// `image::ImageFormat::from_extension` gives for `extensao`, the decoding
/// is `image::load_from_memory_with_format`, the sizes are `DynamicImage::width`
/// and `DynamicImage::height`, and the pixels are `DynamicImage::into_bytes`. The contract claims only that the
/// result is a function of the two arguments, named `textura_de`, and that
/// `None` comes exactly where that function has no value.
#[verifier::external_body]
fn decodifica_textura(bytes: &Vec<u8>, extensao: &str) -> (r: Option<Textura>)
    ensures
        r is Some <==> textura_de(bytes@, extensao@) is Some,
        r matches Some(t) ==> textura_de(bytes@, extensao@) == Some((t.largura, t.altura, t.pixels@)),
{
    let formato = image::ImageFormat::from_extension(extensao)?;
    let imagem = image::load_from_memory_with_format(bytes, formato).ok()?;
    Some(Textura { largura: imagem.width(), altura: imagem.height(), pixels: imagem.into_bytes() })
}

/// The sizes of a texture as OpenGL takes them (signed 32-bit integers),
/// with its pixels; `None` where a size does not fit.
pub open spec fn textura_para_gl(t: (u32, u32, Seq<u8>)) -> Option<(i32, i32, Seq<u8>)> {
    if t.0 <= i32::MAX && t.1 <= i32::MAX {
        Some((t.0 as i32, t.1 as i32, t.2))
    } else {
        None
    }
}

/// The view of a prepared texture: its width, height and pixels.
pub open spec fn vista_gl(r: Option<(i32, i32, Vec<u8>)>) -> Option<(i32, i32, Seq<u8>)> {
    match r {
        Some(g) => Some((g.0, g.1, g.2@)),
        None => None,
    }
}

/// Turns a decoded texture into the width, height and pixels handed to
/// OpenGL: `None` where the width or the height exceeds `i32::MAX`.
pub fn para_gl(t: Textura) -> (r: Option<(i32, i32, Vec<u8>)>)
    ensures
        vista_gl(r) == textura_para_gl((t.largura, t.altura, t.pixels@)),
{
    if t.largura <= 0x7fff_ffffu32 && t.altura <= 0x7fff_ffffu32 {
        Some((t.largura as i32, t.altura as i32, t.pixels))
    } else {
        None
    }
}

/// The picture `px` with its rows in reverse order, the picture turned
/// upside down (as `DynamicImage::flipv` does), where `altura` rows of
/// `px.len() / altura` bytes each make up the picture; bytes past those rows
/// stay where they are.
pub open spec fn linhas_de_baixo_para_cima(px: Seq<u8>, altura: nat) -> Seq<u8> {
    let l: int = if altura > 0 {
        (px.len() / altura) as int
    } else {
        0
    };
    Seq::new(
        px.len(),
        |k: int|
            if k < altura * l {
                px[(altura - 1 - k / l) * l + k % l]
            } else {
                px[k]
            },
    )
}

/// Turns the picture `px`, of `altura` rows, upside down.
fn vira_linhas(px: &Vec<u8>, altura: u32) -> (r: Vec<u8>)
    ensures
        r@ == linhas_de_baixo_para_cima(px@, altura as nat),
{
    let n = px.len();
    let h = altura as usize;
    let l: usize = if h > 0 {
        n / h
    } else {
        0
    };
    proof {
        if h > 0 {
            lemma_fundamental_div_mod(n as int, h as int);
            assert(0 <= n % h);
            assert(h * l <= n) by (nonlinear_arith)
                requires
                    n == h * l + n % h,
                    0 <= n % h,
            ;
        }
    }
    let total: usize = if h > 0 {
        h * l
    } else {
        0
    };
    assert(total == (altura as nat) * l);
    let ghost alvo = linhas_de_baixo_para_cima(px@, altura as nat);
    let mut r: Vec<u8> = Vec::new();
    let mut k: usize = 0;
    while k < n
        invariant
            n == px.len(),
            h == altura,
            total == h * l,
            total <= n,
            h > 0 ==> l == n / h,
            h == 0 ==> l == 0,
            alvo == linhas_de_baixo_para_cima(px@, altura as nat),
            k <= n,
            r@.len() == k,
            forall|j: int| 0 <= j < k ==> r@[j] == alvo[j],
        decreases n - k,
    {
        let b = if k < total {
            let q = k / l;
            let m = k % l;
            proof {
                assert(l > 0) by (nonlinear_arith)
                    requires
                        k < h * l,
                ;
                lemma_fundamental_div_mod(k as int, l as int);
                assert(q < h && (h - 1 - q) * l + m < total) by (nonlinear_arith)
                    requires
                        k == l * q + m,
                        0 <= m < l,
                        k < h * l,
                        0 <= q,
                        total == h * l,
                ;
            }
            px[(h - 1 - q) * l + m]
        } else {
            px[k]
        };
        r.push(b);
        k = k + 1;
    }
    assert(r@ =~= alvo);
    r
}

/// Every byte of a picture turned upside down: with `largura` pixels of `p`
/// bytes in each of `altura` rows, byte `b` of pixel `c` in row `r` of the
/// turned picture is byte `b` of pixel `c` in row `altura - 1 - r` of the
/// picture, and nothing is added or lost.
pub proof fn lema_linhas_de_baixo_para_cima(
    px: Seq<u8>,
    largura: nat,
    altura: nat,
    p: nat,
    r: nat,
    c: nat,
    b: nat,
)
    requires
        px.len() == largura * altura * p,
        r < altura,
        c < largura,
        b < p,
    ensures
        linhas_de_baixo_para_cima(px, altura).len() == px.len(),
        linhas_de_baixo_para_cima(px, altura)[(p * (largura * r + c) + b) as int] == px[p * (largura * (
            altura - 1 - r) + c) + b],
{
    let l = largura * p;
    assert(altura > 0);
    assert(px.len() == altura * l + 0 && px.len() == l * altura) by (nonlinear_arith)
        requires
            px.len() == largura * altura * p,
            l == largura * p,
    ;
    lemma_fundamental_div_mod_converse(px.len() as int, altura as int, l as int, 0);
    let k: int = (p * (largura * r + c) + b) as int;
    let resto: int = (p * c + b) as int;
    assert(k == r * l + resto && 0 <= resto < l && k < altura * l) by (nonlinear_arith)
        requires
            k == p * (largura * r + c) + b,
            resto == p * c + b,
            l == largura * p,
            c < largura,
            b < p,
            r < altura,
    ;
    lemma_fundamental_div_mod_converse(k, l as int, r as int, resto);
    assert((altura - 1 - r) * l + resto == p * (largura * (altura - 1 - r) + c) + b) by (nonlinear_arith)
        requires
            resto == p * c + b,
            l == largura * p,
            r < altura,
    ;
}

/// Turning a picture upside down twice gives it back.
pub proof fn lema_virar_duas_vezes(px: Seq<u8>, altura: nat)
    ensures
        linhas_de_baixo_para_cima(linhas_de_baixo_para_cima(px, altura), altura) == px,
{
    let v = linhas_de_baixo_para_cima(px, altura);
    let w = linhas_de_baixo_para_cima(v, altura);
    let l: int = if altura > 0 {
        (px.len() / altura) as int
    } else {
        0
    };
    assert forall|k: int| 0 <= k < px.len() implies #[trigger] w[k] == px[k] by {
        if k < altura * l {
            assert(altura > 0 && l > 0) by (nonlinear_arith)
                requires
                    0 <= k < altura * l,
                    l >= 0,
            ;
            let n = px.len() as int;
            let h = altura as int;
            lemma_fundamental_div_mod(n, h);
            assert(l == n / h);
            assert(h * l <= n) by (nonlinear_arith)
                requires
                    n == h * l + n % h,
                    0 <= n % h,
            ;
            lemma_fundamental_div_mod(k, l);
            let q = k / l;
            let m = k % l;
            assert(0 <= q) by (nonlinear_arith)
                requires
                    k == l * q + m,
                    0 <= m < l,
                    0 <= k,
            ;
            assert(q < altura) by (nonlinear_arith)
                requires
                    k == l * q + m,
                    0 <= m < l,
                    k < altura * l,
            ;
            let qq = altura - 1 - q;
            let j = qq * l + m;
            assert(0 <= j < altura * l) by (nonlinear_arith)
                requires
                    j == qq * l + m,
                    0 <= qq < altura,
                    0 <= m < l,
            ;
            lemma_fundamental_div_mod_converse(j, l, qq, m);
            assert(w[k] == v[j]);
            assert(v[j] == px[(altura - 1 - qq) * l + m]);
            assert(altura - 1 - qq == q);
            assert(q * l + m == k) by (nonlinear_arith)
                requires
                    k == l * q + m,
            ;
        }
    }
    assert(w =~= px);
}

/// Prepares the bytes of a texture file for upload: decodes them in the
/// format that the file's extension names, turns the picture upside down and
/// gives its width, height and pixel bytes. `None` where the extension names
/// no format, the bytes do not decode, or a size exceeds `i32::MAX`.
pub fn prepara_textura(bytes: &Vec<u8>, extensao: &str) -> (r: Option<(i32, i32, Vec<u8>)>)
    ensures
        vista_gl(r) == match textura_de(bytes@, extensao@) {
            Some(t) => textura_para_gl((t.0, t.1, linhas_de_baixo_para_cima(t.2, t.1 as nat))),
            None => None,
        },
{
    match decodifica_textura(bytes, extensao) {
        Some(t) => {
            let pixels = vira_linhas(&t.pixels, t.altura);
            para_gl(Textura { largura: t.largura, altura: t.altura, pixels })
        },
        None => None,
    }
}

} // verus!
