use vstd::prelude::*;

verus! {

/// The default number of sectors around a cylinder and of layers along its
/// height: cylinders are 40-sided prisms cut into 40 layers.
pub const DIVISOES: u32 = 40;

/// A point of a cylinder mesh, named by where it lies rather than by its
/// coordinates: on the side, at sector boundary `setor` (0 at angle 0, the
/// last one at a full turn) and layer boundary `camada` (0 at the base, the
/// last one at the full height); or at the centre of the cap at layer
/// boundary `camada`.
#[derive(Clone, Copy, Debug, PartialEq, Eq, Structural)]
pub enum PontoCilindro {
    Borda { setor: u32, camada: u32 },
    Centro { camada: u32 },
}

/// The triangles of the side patch between sectors `i`, `i + 1` and layers
/// `j`, `j + 1`, followed by a base-cap triangle where `base` holds and a
/// top-cap triangle where `topo` holds.
pub open spec fn quadrado(i: u32, j: u32, base: bool, topo: bool) -> Seq<PontoCilindro> {
    let p0 = PontoCilindro::Borda { setor: i, camada: j };
    let p1 = PontoCilindro::Borda { setor: i, camada: (j + 1) as u32 };
    let p2 = PontoCilindro::Borda { setor: (i + 1) as u32, camada: j };
    let p3 = PontoCilindro::Borda { setor: (i + 1) as u32, camada: (j + 1) as u32 };
    seq![p0, p2, p1, p3, p1, p2] + (if base {
        seq![p0, p2, PontoCilindro::Centro { camada: j }]
    } else {
        Seq::empty()
    }) + (if topo {
        seq![p1, p3, PontoCilindro::Centro { camada: (j + 1) as u32 }]
    } else {
        Seq::empty()
    })
}

/// The patches of layer `j` for sectors `0..i`, in order.
pub open spec fn faixa(i: nat, j: u32, base: bool, topo: bool) -> Seq<PontoCilindro>
    decreases i,
{
    if i == 0 {
        Seq::empty()
    } else {
        faixa((i - 1) as nat, j, base, topo) + quadrado((i - 1) as u32, j, base, topo)
    }
}

/// The mesh of layers `0..j` of a cylinder with `setores` sectors; layer
/// `c` gets its base cap where `tampa_base[c]` holds and its top cap where
/// `tampa_topo[c]` holds.
pub open spec fn malha(setores: u32, j: nat, tampa_base: Seq<bool>, tampa_topo: Seq<bool>) -> Seq<
    PontoCilindro,
>
    decreases j,
{
    if j == 0 {
        Seq::empty()
    } else {
        malha(setores, (j - 1) as nat, tampa_base, tampa_topo) + faixa(
            setores as nat,
            (j - 1) as u32,
            tampa_base[j - 1],
            tampa_topo[j - 1],
        )
    }
}

/// The triangle list of a cylinder's side and caps, as `cria_cilindro`
/// emits it: layer after layer, and in each layer sector after sector, two
/// side triangles, then the base-cap triangle where the layer's flag in
/// `tampa_base` is set and the top-cap triangle where its flag in
/// `tampa_topo` is set. The number of layers is the number of flags.
pub fn malha_cilindro(setores: u32, tampa_base: &Vec<bool>, tampa_topo: &Vec<bool>) -> (r: Vec<
    PontoCilindro,
>)
    requires
        tampa_base.len() == tampa_topo.len(),
        tampa_base.len() < u32::MAX,
        setores < u32::MAX,
    ensures
        r@ == malha(setores, tampa_base.len() as nat, tampa_base@, tampa_topo@),
{
    let camadas = tampa_base.len() as u32;
    let mut pontos: Vec<PontoCilindro> = Vec::new();
    for j in 0..camadas
        invariant
            camadas as nat == tampa_base.len(),
            tampa_base.len() == tampa_topo.len(),
            setores < u32::MAX,
            camadas < u32::MAX,
            pontos@ == malha(setores, j as nat, tampa_base@, tampa_topo@),
    {
        let base = tampa_base[j as usize];
        let topo = tampa_topo[j as usize];
        let ghost antes = pontos@;
        for i in 0..setores
            invariant
                j < camadas,
                camadas < u32::MAX,
                setores < u32::MAX,
                pontos@ == antes + faixa(i as nat, j, base, topo),
        {
            let p0 = PontoCilindro::Borda { setor: i, camada: j };
            let p1 = PontoCilindro::Borda { setor: i, camada: j + 1 };
            let p2 = PontoCilindro::Borda { setor: i + 1, camada: j };
            let p3 = PontoCilindro::Borda { setor: i + 1, camada: j + 1 };
            let ghost antes_q = pontos@;
            pontos.push(p0);
            pontos.push(p2);
            pontos.push(p1);
            pontos.push(p3);
            pontos.push(p1);
            pontos.push(p2);
            if base {
                pontos.push(p0);
                pontos.push(p2);
                pontos.push(PontoCilindro::Centro { camada: j });
            }
            if topo {
                pontos.push(p1);
                pontos.push(p3);
                pontos.push(PontoCilindro::Centro { camada: j + 1 });
            }
            assert(pontos@ =~= antes_q + quadrado(i, j, base, topo));
        }
    }
    pontos
}

/// How many of the first `n` flags are set.
pub open spec fn conta(flags: Seq<bool>, n: nat) -> nat
    decreases n,
{
    if n == 0 {
        0
    } else {
        conta(flags, (n - 1) as nat) + if flags[n - 1] {
            1nat
        } else {
            0nat
        }
    }
}

/// Points per side patch: six for the side, three more per cap.
pub open spec fn pontos_por_quadrado(base: bool, topo: bool) -> nat {
    6 + (if base {
        3nat
    } else {
        0nat
    }) + (if topo {
        3nat
    } else {
        0nat
    })
}

proof fn lema_tamanho_faixa(i: nat, j: u32, base: bool, topo: bool)
    ensures
        faixa(i, j, base, topo).len() == i * pontos_por_quadrado(base, topo),
    decreases i,
{
    if i > 0 {
        lema_tamanho_faixa((i - 1) as nat, j, base, topo);
        let k = pontos_por_quadrado(base, topo);
        let a = (i - 1) as nat;
        assert(quadrado(a as u32, j, base, topo).len() == k);
        assert(faixa(i, j, base, topo).len() == a * k + k);
        assert(a * k + k == i * k) by (nonlinear_arith)
            requires
                i == a + 1,
        ;
    } else {
        let k = pontos_por_quadrado(base, topo);
        assert(i * k == 0) by (nonlinear_arith)
            requires
                i == 0,
        ;
    }
}

/// A cylinder mesh has six points per side patch and three more per patch
/// of every layer whose base or top cap is drawn: with `setores` sectors and
/// `camadas` layers, `setores * (6 * camadas + 3 * (base caps + top caps))`.
pub proof fn lema_tamanho_malha(setores: u32, camadas: nat, tampa_base: Seq<bool>, tampa_topo: Seq<bool>)
    requires
        camadas <= tampa_base.len(),
        camadas <= tampa_topo.len(),
    ensures
        malha(setores, camadas, tampa_base, tampa_topo).len() == setores * (6 * camadas + 3 * conta(
            tampa_base,
            camadas,
        ) + 3 * conta(tampa_topo, camadas)),
    decreases camadas,
{
    if camadas > 0 {
        let c = (camadas - 1) as nat;
        lema_tamanho_malha(setores, c, tampa_base, tampa_topo);
        lema_tamanho_faixa(setores as nat, c as u32, tampa_base[c as int], tampa_topo[c as int]);
        let k = pontos_por_quadrado(tampa_base[c as int], tampa_topo[c as int]);
        let a = 6 * c + 3 * conta(tampa_base, c) + 3 * conta(tampa_topo, c);
        assert(k + a == 6 * camadas + 3 * conta(tampa_base, camadas) + 3 * conta(tampa_topo, camadas));
        let s = setores as nat;
        assert(s * a + s * k == s * (k + a)) by (nonlinear_arith);
        assert(setores * (6 * camadas + 3 * conta(tampa_base, camadas) + 3 * conta(tampa_topo, camadas)) == s * (k + a));
        assert(faixa(s, c as u32, tampa_base[c as int], tampa_topo[c as int]).len() == s * k);
        assert(malha(setores, camadas, tampa_base, tampa_topo).len() == s * a + s * k);
    } else {
        let s = setores as nat;
        assert(s * 0 == 0) by (nonlinear_arith);
    }
}

/// A point name that lies on a cylinder with `setores` sectors and
/// `camadas` layers.
pub open spec fn ponto_na_malha(p: PontoCilindro, setores: u32, camadas: nat) -> bool {
    match p {
        PontoCilindro::Borda { setor, camada } => setor <= setores && camada <= camadas,
        PontoCilindro::Centro { camada } => camada <= camadas,
    }
}

/// Every point of a cylinder mesh names a sector boundary between 0 and
/// `setores` and a layer boundary between 0 and `camadas`.
pub proof fn lema_pontos_na_malha(setores: u32, camadas: nat, tampa_base: Seq<bool>, tampa_topo: Seq<bool>)
    requires
        camadas <= tampa_base.len(),
        camadas <= tampa_topo.len(),
        setores < u32::MAX,
        camadas < u32::MAX,
    ensures
        forall|k: int|
            0 <= k < malha(setores, camadas, tampa_base, tampa_topo).len() ==> ponto_na_malha(
                #[trigger] malha(setores, camadas, tampa_base, tampa_topo)[k],
                setores,
                camadas,
            ),
    decreases camadas,
{
    if camadas > 0 {
        let c = (camadas - 1) as nat;
        lema_pontos_na_malha(setores, c, tampa_base, tampa_topo);
        let m = malha(setores, c, tampa_base, tampa_topo);
        let f = faixa(setores as nat, c as u32, tampa_base[c as int], tampa_topo[c as int]);
        lema_pontos_na_faixa(setores as nat, setores, c as u32, tampa_base[c as int], tampa_topo[c as int]);
        assert forall|k: int| 0 <= k < (m + f).len() implies ponto_na_malha(#[trigger] (m + f)[k], setores, camadas) by {
            if k < m.len() {
                assert((m + f)[k] == m[k]);
                assert(ponto_na_malha(m[k], setores, c));
            } else {
                assert((m + f)[k] == f[k - m.len()]);
            }
        }
    }
}

proof fn lema_pontos_na_faixa(i: nat, setores: u32, j: u32, base: bool, topo: bool)
    requires
        i <= setores,
        setores < u32::MAX,
        j < u32::MAX,
    ensures
        forall|k: int| 0 <= k < faixa(i, j, base, topo).len() ==> ponto_na_malha(
            #[trigger] faixa(i, j, base, topo)[k],
            setores,
            (j + 1) as nat,
        ),
    decreases i,
{
    if i > 0 {
        lema_pontos_na_faixa((i - 1) as nat, setores, j, base, topo);
        let a = faixa((i - 1) as nat, j, base, topo);
        let q = quadrado((i - 1) as u32, j, base, topo);
        assert forall|k: int| 0 <= k < (a + q).len() implies ponto_na_malha(#[trigger] (a + q)[k], setores, (j + 1) as nat) by {
            if k < a.len() {
                assert((a + q)[k] == a[k]);
            } else {
                assert((a + q)[k] == q[k - a.len()]);
            }
        }
    }
}

/// Where the patch of sector `i` in layer `j` starts in a cylinder mesh:
/// after the whole layers below `j` (six points per sector, three more per
/// sector for each cap drawn) and the `i` patches before it in its layer.
pub open spec fn inicio_do_quadrado(
    setores: u32,
    tampa_base: Seq<bool>,
    tampa_topo: Seq<bool>,
    i: u32,
    j: u32,
) -> nat {
    (setores as nat) * (6 * (j as nat) + 3 * conta(tampa_base, j as nat) + 3 * conta(tampa_topo, j as nat))
        + (i as nat) * pontos_por_quadrado(tampa_base[j as int], tampa_topo[j as int])
}

/// Point `d` of the patch of sector `i` in layer `j` of a mesh.
pub open spec fn ponto_do_quadrado(
    setores: u32,
    camadas: nat,
    tampa_base: Seq<bool>,
    tampa_topo: Seq<bool>,
    i: u32,
    j: u32,
    d: int,
) -> PontoCilindro {
    malha(setores, camadas, tampa_base, tampa_topo)[inicio_do_quadrado(
        setores,
        tampa_base,
        tampa_topo,
        i,
        j,
    ) + d]
}

proof fn lema_quadrado_na_faixa(n: nat, j: u32, base: bool, topo: bool, i: nat, d: int)
    requires
        i < n,
        0 <= d < pontos_por_quadrado(base, topo),
    ensures
        i * pontos_por_quadrado(base, topo) + d < faixa(n, j, base, topo).len(),
        faixa(n, j, base, topo)[i * pontos_por_quadrado(base, topo) + d] == quadrado(
            i as u32,
            j,
            base,
            topo,
        )[d],
    decreases n,
{
    let k = pontos_por_quadrado(base, topo);
    let a = faixa((n - 1) as nat, j, base, topo);
    let q = quadrado((n - 1) as u32, j, base, topo);
    lema_tamanho_faixa((n - 1) as nat, j, base, topo);
    assert(q.len() == k);
    assert(faixa(n, j, base, topo) == a + q);
    if i == n - 1 {
        assert((a + q)[a.len() + d] == q[d]);
    } else {
        lema_quadrado_na_faixa((n - 1) as nat, j, base, topo, i, d);
        assert((a + q)[i * k + d] == a[i * k + d]);
    }
}

proof fn lema_faixa_na_malha(
    setores: u32,
    camadas: nat,
    tampa_base: Seq<bool>,
    tampa_topo: Seq<bool>,
    j: nat,
    x: int,
)
    requires
        j < camadas,
        camadas <= tampa_base.len(),
        camadas <= tampa_topo.len(),
        0 <= x < faixa(setores as nat, j as u32, tampa_base[j as int], tampa_topo[j as int]).len(),
    ensures
        malha(setores, j, tampa_base, tampa_topo).len() + x < malha(
            setores,
            camadas,
            tampa_base,
            tampa_topo,
        ).len(),
        malha(setores, camadas, tampa_base, tampa_topo)[malha(setores, j, tampa_base, tampa_topo).len()
            + x] == faixa(setores as nat, j as u32, tampa_base[j as int], tampa_topo[j as int])[x],
    decreases camadas,
{
    let c = (camadas - 1) as nat;
    let a = malha(setores, c, tampa_base, tampa_topo);
    let f = faixa(setores as nat, c as u32, tampa_base[c as int], tampa_topo[c as int]);
    assert(malha(setores, camadas, tampa_base, tampa_topo) == a + f);
    if j == c {
        assert((a + f)[a.len() + x] == f[x]);
    } else {
        lema_faixa_na_malha(setores, c, tampa_base, tampa_topo, j, x);
        let y = malha(setores, j, tampa_base, tampa_topo).len() + x;
        assert((a + f)[y] == a[y]);
    }
}

/// Where the top-cap triangle starts in a patch: after the six side points
/// and, where the base cap is drawn, its three.
pub open spec fn desvio_do_topo(base: bool) -> int {
    if base {
        9
    } else {
        6
    }
}

/// The patch of sector `i` in layer `j` of a cylinder mesh is, whatever the
/// cap flags, the two side triangles (i, j), (i + 1, j), (i, j + 1) and
/// (i + 1, j + 1), (i, j + 1), (i + 1, j) of its quad; after them comes the
/// base-cap triangle (i, j), (i + 1, j), centre of `j` where the layer's base
/// flag is set, and then the top-cap triangle (i, j + 1), (i + 1, j + 1),
/// centre of `j + 1` where its top flag is set.
pub proof fn lema_quadrado_na_malha(
    setores: u32,
    camadas: nat,
    tampa_base: Seq<bool>,
    tampa_topo: Seq<bool>,
    i: u32,
    j: u32,
)
    requires
        camadas <= tampa_base.len(),
        camadas <= tampa_topo.len(),
        setores < u32::MAX,
        camadas < u32::MAX,
        i < setores,
        j < camadas,
    ensures
        inicio_do_quadrado(setores, tampa_base, tampa_topo, i, j) + pontos_por_quadrado(
            tampa_base[j as int],
            tampa_topo[j as int],
        ) <= malha(setores, camadas, tampa_base, tampa_topo).len(),
        ponto_do_quadrado(setores, camadas, tampa_base, tampa_topo, i, j, 0) == (PontoCilindro::Borda { setor: i, camada: j }),
        ponto_do_quadrado(setores, camadas, tampa_base, tampa_topo, i, j, 1) == (PontoCilindro::Borda { setor: (i + 1) as u32, camada: j }),
        ponto_do_quadrado(setores, camadas, tampa_base, tampa_topo, i, j, 2) == (PontoCilindro::Borda { setor: i, camada: (j + 1) as u32 }),
        ponto_do_quadrado(setores, camadas, tampa_base, tampa_topo, i, j, 3) == (PontoCilindro::Borda { setor: (i + 1) as u32, camada: (j + 1) as u32 }),
        ponto_do_quadrado(setores, camadas, tampa_base, tampa_topo, i, j, 4) == (PontoCilindro::Borda { setor: i, camada: (j + 1) as u32 }),
        ponto_do_quadrado(setores, camadas, tampa_base, tampa_topo, i, j, 5) == (PontoCilindro::Borda { setor: (i + 1) as u32, camada: j }),
        tampa_base[j as int] ==> ponto_do_quadrado(setores, camadas, tampa_base, tampa_topo, i, j, 6) == (PontoCilindro::Borda { setor: i, camada: j }),
        tampa_base[j as int] ==> ponto_do_quadrado(setores, camadas, tampa_base, tampa_topo, i, j, 7) == (PontoCilindro::Borda { setor: (i + 1) as u32, camada: j }),
        tampa_base[j as int] ==> ponto_do_quadrado(setores, camadas, tampa_base, tampa_topo, i, j, 8) == (PontoCilindro::Centro { camada: j }),
        tampa_topo[j as int] ==> ponto_do_quadrado(setores, camadas, tampa_base, tampa_topo, i, j, desvio_do_topo(tampa_base[j as int]) + 0) == (PontoCilindro::Borda { setor: i, camada: (j + 1) as u32 }),
        tampa_topo[j as int] ==> ponto_do_quadrado(setores, camadas, tampa_base, tampa_topo, i, j, desvio_do_topo(tampa_base[j as int]) + 1) == (PontoCilindro::Borda { setor: (i + 1) as u32, camada: (j + 1) as u32 }),
        tampa_topo[j as int] ==> ponto_do_quadrado(setores, camadas, tampa_base, tampa_topo, i, j, desvio_do_topo(tampa_base[j as int]) + 2) == (PontoCilindro::Centro { camada: (j + 1) as u32 }),
{
    let base = tampa_base[j as int];
    let topo = tampa_topo[j as int];
    let k = pontos_por_quadrado(base, topo);
    let s = setores as nat;
    let q = quadrado(i, j, base, topo);
    lema_tamanho_malha(setores, j as nat, tampa_base, tampa_topo);
    lema_tamanho_faixa(s, j, base, topo);
    let m0 = malha(setores, j as nat, tampa_base, tampa_topo).len();
    assert(m0 + i * k == inicio_do_quadrado(setores, tampa_base, tampa_topo, i, j));
    assert forall|d: int| 0 <= d < k implies ponto_do_quadrado(
        setores,
        camadas,
        tampa_base,
        tampa_topo,
        i,
        j,
        d,
    ) == #[trigger] q[d] && inicio_do_quadrado(setores, tampa_base, tampa_topo, i, j) + d < malha(
        setores,
        camadas,
        tampa_base,
        tampa_topo,
    ).len() by {
        lema_quadrado_na_faixa(s, j, base, topo, i as nat, d);
        assert((j as nat) as u32 == j);
        lema_faixa_na_malha(setores, camadas, tampa_base, tampa_topo, j as nat, i * k + d);
    }
    assert(k >= 6);
    assert(q[k - 1] == q[k - 1]);
    assert(inicio_do_quadrado(setores, tampa_base, tampa_topo, i, j) + (k - 1) < malha(
        setores,
        camadas,
        tampa_base,
        tampa_topo,
    ).len());
    assert(ponto_do_quadrado(setores, camadas, tampa_base, tampa_topo, i, j, 0) == q[0]);
    assert(ponto_do_quadrado(setores, camadas, tampa_base, tampa_topo, i, j, 1) == q[1]);
    assert(ponto_do_quadrado(setores, camadas, tampa_base, tampa_topo, i, j, 2) == q[2]);
    assert(ponto_do_quadrado(setores, camadas, tampa_base, tampa_topo, i, j, 3) == q[3]);
    assert(ponto_do_quadrado(setores, camadas, tampa_base, tampa_topo, i, j, 4) == q[4]);
    assert(ponto_do_quadrado(setores, camadas, tampa_base, tampa_topo, i, j, 5) == q[5]);
    if base {
        assert(ponto_do_quadrado(setores, camadas, tampa_base, tampa_topo, i, j, 6) == q[6]);
        assert(ponto_do_quadrado(setores, camadas, tampa_base, tampa_topo, i, j, 7) == q[7]);
        assert(ponto_do_quadrado(setores, camadas, tampa_base, tampa_topo, i, j, 8) == q[8]);
    }
    if topo {
        let o = desvio_do_topo(base);
        assert(ponto_do_quadrado(setores, camadas, tampa_base, tampa_topo, i, j, o + 0) == q[o + 0]);
        assert(ponto_do_quadrado(setores, camadas, tampa_base, tampa_topo, i, j, o + 1) == q[o + 1]);
        assert(ponto_do_quadrado(setores, camadas, tampa_base, tampa_topo, i, j, o + 2) == q[o + 2]);
    }
}

} // verus!
