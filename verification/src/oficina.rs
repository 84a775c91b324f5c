//! Oficina: uma cópia viva de uma pasta, onde a Teka mexe de verdade.
//!
//! Entre "fingir" (sandbox) e "apostar" (modo real) faltava um degrau. A oficina é
//! esse degrau: ela **executa de verdade**, mas numa cópia. Depois se olha o
//! [`Oficina::diff`], e só então se aplica ou se descarta.
//!
//! Não é isolamento de segurança — a denylist e a raiz continuam sendo as guardas.
//! A oficina protege contra **erro**, não contra malícia. Por isso ela também tem
//! teto de tamanho: apontar para `C:\` por engano copiaria o disco inteiro.
//!
//! Aqui ficam as decisões: se uma oficina pode abrir, e o que mudou entre duas
//! listagens. Copiar, listar e comparar bytes é com o programa.
use vstd::prelude::*;
use crate::texto::{acrescentar_str, caracteres, caracteres_de, copiar, decimal, escrever_decimal, iguais, string_de};

verus! {

/// Teto de arquivos copiados. Passar disso quase sempre significa que a pasta
/// apontada estava errada.
pub const MAX_ARQUIVOS: usize = 2000;

/// Teto de bytes copiados (64 MB).
pub const MAX_BYTES: u64 = 67108864;

#[derive(Clone, Debug)]
pub enum Mudanca {
    Criado { caminho: String, bytes: u64 },
    Alterado { caminho: String, antes: u64, depois: u64 },
    Removido { caminho: String, bytes: u64 },
}

pub open spec fn caminho_de(m: Mudanca) -> Seq<char> {
    match m {
        Mudanca::Criado { caminho, .. } => caminho@,
        Mudanca::Alterado { caminho, .. } => caminho@,
        Mudanca::Removido { caminho, .. } => caminho@,
    }
}

pub open spec fn texto_de(m: Mudanca) -> Seq<char> {
    match m {
        Mudanca::Criado { caminho, bytes } => "  + "@ + caminho@ + "  ("@ + decimal(bytes)
            + " bytes)"@,
        Mudanca::Alterado { caminho, antes, depois } => "  ~ "@ + caminho@ + "  ("@ + decimal(
            antes,
        ) + " → "@ + decimal(depois) + " bytes)"@,
        Mudanca::Removido { caminho, bytes } => "  - "@ + caminho@ + "  ("@ + decimal(bytes)
            + " bytes)"@,
    }
}

impl Mudanca {
    pub fn caminho(&self) -> (r: &String)
        ensures
            r@ == caminho_de(*self),
    {
        match self {
            Mudanca::Criado { caminho, .. } => caminho,
            Mudanca::Alterado { caminho, .. } => caminho,
            Mudanca::Removido { caminho, .. } => caminho,
        }
    }

    /// A linha que mostra a mudança: `+` criado, `~` alterado, `-` removido.
    pub fn texto(&self) -> (r: String)
        ensures
            r@ == texto_de(*self),
    {
        let mut v: Vec<char> = Vec::new();
        match self {
            Mudanca::Criado { caminho, bytes } => {
                let a = caracteres("  + ");
                crate::texto::acrescentar_vec(&mut v, a.as_slice());
                let c = caracteres_de(caminho);
                crate::texto::acrescentar_vec(&mut v, c.as_slice());
                let b = caracteres("  (");
                crate::texto::acrescentar_vec(&mut v, b.as_slice());
                escrever_decimal(*bytes, &mut v);
                let d = caracteres(" bytes)");
                crate::texto::acrescentar_vec(&mut v, d.as_slice());
            },
            Mudanca::Alterado { caminho, antes, depois } => {
                let a = caracteres("  ~ ");
                crate::texto::acrescentar_vec(&mut v, a.as_slice());
                let c = caracteres_de(caminho);
                crate::texto::acrescentar_vec(&mut v, c.as_slice());
                let b = caracteres("  (");
                crate::texto::acrescentar_vec(&mut v, b.as_slice());
                escrever_decimal(*antes, &mut v);
                let s = caracteres(" → ");
                crate::texto::acrescentar_vec(&mut v, s.as_slice());
                escrever_decimal(*depois, &mut v);
                let d = caracteres(" bytes)");
                crate::texto::acrescentar_vec(&mut v, d.as_slice());
            },
            Mudanca::Removido { caminho, bytes } => {
                let a = caracteres("  - ");
                crate::texto::acrescentar_vec(&mut v, a.as_slice());
                let c = caracteres_de(caminho);
                crate::texto::acrescentar_vec(&mut v, c.as_slice());
                let b = caracteres("  (");
                crate::texto::acrescentar_vec(&mut v, b.as_slice());
                escrever_decimal(*bytes, &mut v);
                let d = caracteres(" bytes)");
                crate::texto::acrescentar_vec(&mut v, d.as_slice());
            },
        }
        assert(v@ =~= texto_de(*self));
        string_de(v.as_slice())
    }
}

#[derive(Debug)]
pub struct Oficina {
    /// A pasta de verdade, que ninguém toca até aplicar.
    origem: String,
    /// A cópia onde a Teka trabalha.
    raiz: String,
    aplicada: bool,
    descartada: bool,
}

/// Por que uma oficina não abre, ou `None` se abre.
pub open spec fn recusa_abrir(
    origem: Seq<char>,
    destino: Seq<char>,
    origem_e_pasta: bool,
    destino_existe: bool,
    n: usize,
    bytes: u64,
) -> Option<Seq<char>> {
    if !origem_e_pasta {
        Some("oficina precisa de uma PASTA existente: "@ + origem)
    } else if destino_existe {
        Some(destino + " já existe; use uma pasta nova"@)
    } else if n > MAX_ARQUIVOS || bytes > MAX_BYTES {
        Some(
            "pasta grande demais para oficina ("@ + decimal(n as u64) + " arquivos, "@ + decimal(
                bytes / 1024 / 1024,
            ) + " MB); aponte uma subpasta"@,
        )
    } else {
        None
    }
}

impl Oficina {
    pub closed spec fn origem_s(&self) -> Seq<char> {
        self.origem@
    }

    pub closed spec fn raiz_s(&self) -> Seq<char> {
        self.raiz@
    }

    pub closed spec fn raiz_string(&self) -> String {
        self.raiz
    }

    pub proof fn lema_raiz(&self)
        ensures
            self.raiz_string()@ == self.raiz_s(),
    {
    }

    pub closed spec fn aplicada_s(&self) -> bool {
        self.aplicada
    }

    pub closed spec fn descartada_s(&self) -> bool {
        self.descartada
    }

    /// Decide se a oficina sobre `origem` pode abrir em `destino`.
    ///
    /// `origem` tem de ser uma pasta; `destino` tem de não existir — reaproveitar
    /// uma pasta suja misturaria mudanças de duas sessões e o diff mentiria; e a
    /// origem, medida (`n` arquivos, `bytes` bytes), tem de caber nos tetos. Com a
    /// oficina aberta, o programa copia a árvore.
    pub fn abrir(
        origem: &str,
        destino: &str,
        origem_e_pasta: bool,
        destino_existe: bool,
        n: usize,
        bytes: u64,
    ) -> (r: Result<Oficina, String>)
        ensures
            match recusa_abrir(origem@, destino@, origem_e_pasta, destino_existe, n, bytes) {
                Some(m) => r matches Err(e) && e@ == m,
                None => r matches Ok(of) && of.origem_s() == origem@ && of.raiz_s() == destino@
                    && !of.aplicada_s() && !of.descartada_s(),
            },
    {
        if !origem_e_pasta {
            let mut s = copiar("oficina precisa de uma PASTA existente: ");
            acrescentar_str(&mut s, origem);
            return Err(s);
        }
        if destino_existe {
            let mut s = copiar(destino);
            acrescentar_str(&mut s, " já existe; use uma pasta nova");
            return Err(s);
        }
        if n > MAX_ARQUIVOS || bytes > MAX_BYTES {
            let mut v = caracteres("pasta grande demais para oficina (");
            escrever_decimal(n as u64, &mut v);
            let a = caracteres(" arquivos, ");
            crate::texto::acrescentar_vec(&mut v, a.as_slice());
            escrever_decimal(bytes / 1024 / 1024, &mut v);
            let b = caracteres(" MB); aponte uma subpasta");
            crate::texto::acrescentar_vec(&mut v, b.as_slice());
            assert(v@ =~= "pasta grande demais para oficina ("@ + decimal(n as u64) + " arquivos, "@
                + decimal(bytes / 1024 / 1024) + " MB); aponte uma subpasta"@);
            return Err(string_de(v.as_slice()));
        }
        Ok(Oficina { origem: copiar(origem), raiz: copiar(destino), aplicada: false, descartada: false })
    }

    /// Onde a Teka deve escrever.
    pub fn raiz(&self) -> (r: &String)
        ensures
            r@ == self.raiz_s(),
            *r == self.raiz_string(),
    {
        &self.raiz
    }

    pub fn origem(&self) -> (r: &String)
        ensures
            r@ == self.origem_s(),
    {
        &self.origem
    }

    pub fn foi_aplicada(&self) -> (r: bool)
        ensures
            r == self.aplicada_s(),
    {
        self.aplicada
    }

    pub fn foi_descartada(&self) -> (r: bool)
        ensures
            r == self.descartada_s(),
    {
        self.descartada
    }

    /// Aplicar só vale numa oficina que não foi descartada.
    pub fn pode_aplicar(&self) -> (r: Result<(), String>)
        ensures
            r is Ok <==> !self.descartada_s(),
            r matches Err(e) ==> e@ == "oficina já descartada"@,
    {
        if self.descartada {
            Err(copiar("oficina já descartada"))
        } else {
            Ok(())
        }
    }

    /// Registra que as mudanças foram para a pasta original.
    pub fn marcar_aplicada(&mut self)
        ensures
            final(self).aplicada_s(),
            final(self).descartada_s() == old(self).descartada_s(),
            final(self).origem_s() == old(self).origem_s(),
            final(self).raiz_s() == old(self).raiz_s(),
    {
        self.aplicada = true;
    }

    /// Registra que a cópia foi jogada fora.
    pub fn marcar_descartada(&mut self)
        ensures
            final(self).descartada_s(),
            final(self).aplicada_s() == old(self).aplicada_s(),
            final(self).origem_s() == old(self).origem_s(),
            final(self).raiz_s() == old(self).raiz_s(),
    {
        self.descartada = true;
    }
}

// ───────────────────────────── o que mudou entre duas listagens

/// [`Mudanca`] vista por valor.
pub enum MudancaS {
    Criado(Seq<char>, u64),
    Alterado(Seq<char>, u64, u64),
    Removido(Seq<char>, u64),
}

pub open spec fn vista_mudanca(m: Mudanca) -> MudancaS {
    match m {
        Mudanca::Criado { caminho, bytes } => MudancaS::Criado(caminho@, bytes),
        Mudanca::Alterado { caminho, antes, depois } => MudancaS::Alterado(caminho@, antes, depois),
        Mudanca::Removido { caminho, bytes } => MudancaS::Removido(caminho@, bytes),
    }
}

pub open spec fn vistas_mudancas(v: Seq<Mudanca>) -> Seq<MudancaS> {
    v.map_values(|m: Mudanca| vista_mudanca(m))
}

/// Uma listagem de arquivos: caminho relativo e tamanho.
pub open spec fn listagem(v: Seq<(String, u64)>) -> Seq<(Seq<char>, u64)> {
    v.map_values(|e: (String, u64)| (e.0@, e.1))
}

/// O tamanho do caminho na listagem (a primeira entrada com ele), se está lá.
pub open spec fn tamanho_em(l: Seq<(Seq<char>, u64)>, p: Seq<char>) -> Option<u64>
    decreases l.len(),
{
    if l.len() == 0 {
        None
    } else if l[0].0 == p {
        Some(l[0].1)
    } else {
        tamanho_em(l.drop_first(), p)
    }
}

/// Os arquivos de `depois` que não estavam em `antes` (criados) e os que estavam
/// com outro tamanho ou outro conteúdo (alterados), na ordem de `depois`.
/// `diferentes` são os caminhos de mesmo tamanho cujo conteúdo difere.
pub open spec fn criados_e_alterados(
    depois: Seq<(Seq<char>, u64)>,
    antes: Seq<(Seq<char>, u64)>,
    diferentes: Seq<Seq<char>>,
) -> Seq<MudancaS>
    decreases depois.len(),
{
    if depois.len() == 0 {
        seq![]
    } else {
        let r = criados_e_alterados(depois.drop_last(), antes, diferentes);
        let p = depois.last().0;
        let s = depois.last().1;
        match tamanho_em(antes, p) {
            None => r.push(MudancaS::Criado(p, s)),
            Some(s0) => if s0 != s || diferentes.contains(p) {
                r.push(MudancaS::Alterado(p, s0, s))
            } else {
                r
            },
        }
    }
}

/// Os arquivos de `antes` que sumiram em `depois`, na ordem de `antes`.
pub open spec fn removidos(antes: Seq<(Seq<char>, u64)>, depois: Seq<(Seq<char>, u64)>) -> Seq<MudancaS>
    decreases antes.len(),
{
    if antes.len() == 0 {
        seq![]
    } else {
        let r = removidos(antes.drop_last(), depois);
        if tamanho_em(depois, antes.last().0) is None {
            r.push(MudancaS::Removido(antes.last().0, antes.last().1))
        } else {
            r
        }
    }
}

/// Os caminhos presentes nas duas listagens com o mesmo tamanho: só o conteúdo
/// pode dizer se mudaram.
pub open spec fn pares_de(depois: Seq<(Seq<char>, u64)>, antes: Seq<(Seq<char>, u64)>) -> Seq<Seq<char>>
    decreases depois.len(),
{
    if depois.len() == 0 {
        seq![]
    } else {
        let r = pares_de(depois.drop_last(), antes);
        if tamanho_em(antes, depois.last().0) == Some(depois.last().1) {
            r.push(depois.last().0)
        } else {
            r
        }
    }
}

fn tamanho_exec(l: &[(String, u64)], p: &[char]) -> (r: Option<u64>)
    ensures
        r == tamanho_em(listagem(l@), p@),
{
    let ghost lv = listagem(l@);
    let mut i: usize = 0;
    assert(lv.skip(0) =~= lv);
    while i < l.len()
        invariant
            i <= l@.len(),
            lv == listagem(l@),
            tamanho_em(lv.skip(i as int), p@) == tamanho_em(lv, p@),
        decreases l.len() - i,
    {
        assert(lv.skip(i as int)[0] == (l@[i as int].0@, l@[i as int].1));
        assert(lv.skip(i as int).drop_first() =~= lv.skip(i + 1));
        let c = caracteres_de(&l[i].0);
        if iguais(c.as_slice(), p) {
            return Some(l[i].1);
        }
        i = i + 1;
    }
    assert(lv.skip(i as int) =~= Seq::<(Seq<char>, u64)>::empty());
    None
}

fn contem_caminho(v: &[String], p: &[char]) -> (r: bool)
    ensures
        r == v@.map_values(|x: String| x@).contains(p@),
{
    let ghost vv = v@.map_values(|x: String| x@);
    let mut i: usize = 0;
    while i < v.len()
        invariant
            i <= v@.len(),
            vv == v@.map_values(|x: String| x@),
            forall|k: int| 0 <= k < i ==> vv[k] != p@,
        decreases v.len() - i,
    {
        let c = caracteres_de(&v[i]);
        if iguais(c.as_slice(), p) {
            assert(vv[i as int] == p@);
            return true;
        }
        i = i + 1;
    }
    false
}

/// Os caminhos que estão nas duas listagens com o mesmo tamanho: os que precisam
/// de comparação de conteúdo.
pub fn pares_para_comparar(antes: &[(String, u64)], depois: &[(String, u64)]) -> (r: Vec<String>)
    ensures
        r@.map_values(|x: String| x@) == pares_de(listagem(depois@), listagem(antes@)),
{
    let ghost dv = listagem(depois@);
    let ghost av = listagem(antes@);
    let mut r: Vec<String> = Vec::new();
    let mut i: usize = 0;
    assert(dv.take(0) =~= Seq::<(Seq<char>, u64)>::empty());
    assert(r@.map_values(|x: String| x@) =~= Seq::<Seq<char>>::empty());
    while i < depois.len()
        invariant
            i <= depois@.len(),
            dv == listagem(depois@),
            av == listagem(antes@),
            r@.map_values(|x: String| x@) == pares_de(dv.take(i as int), av),
        decreases depois.len() - i,
    {
        assert(dv.take(i + 1).drop_last() =~= dv.take(i as int));
        assert(dv.take(i + 1).last() == (depois@[i as int].0@, depois@[i as int].1));
        let p = caracteres_de(&depois[i].0);
        if tamanho_exec(antes, p.as_slice()) == Some(depois[i].1) {
            let ghost ant = r@;
            r.push(copiar(depois[i].0.as_str()));
            assert(r@.map_values(|x: String| x@) =~= ant.map_values(|x: String| x@).push(p@));
        }
        i = i + 1;
    }
    assert(dv.take(depois@.len() as int) =~= dv);
    r
}

/// O que mudou entre a listagem da original (`antes`) e a da cópia (`depois`):
/// criados e alterados na ordem da cópia, depois os removidos na ordem da
/// original. `diferentes` são os caminhos de mesmo tamanho cujo conteúdo difere.
fn mudancas_nas_listagens(antes: &[(String, u64)], depois: &[(String, u64)], diferentes: &[String]) -> (r: Vec<Mudanca>)
    ensures
        vistas_mudancas(r@) == criados_e_alterados(
            listagem(depois@),
            listagem(antes@),
            diferentes@.map_values(|x: String| x@),
        ) + removidos(listagem(antes@), listagem(depois@)),
{
    let ghost dv = listagem(depois@);
    let ghost av = listagem(antes@);
    let ghost fv = diferentes@.map_values(|x: String| x@);
    let mut r: Vec<Mudanca> = Vec::new();
    let mut i: usize = 0;
    assert(dv.take(0) =~= Seq::<(Seq<char>, u64)>::empty());
    assert(vistas_mudancas(r@) =~= Seq::<MudancaS>::empty());
    while i < depois.len()
        invariant
            i <= depois@.len(),
            dv == listagem(depois@),
            av == listagem(antes@),
            fv == diferentes@.map_values(|x: String| x@),
            vistas_mudancas(r@) == criados_e_alterados(dv.take(i as int), av, fv),
        decreases depois.len() - i,
    {
        assert(dv.take(i + 1).drop_last() =~= dv.take(i as int));
        assert(dv.take(i + 1).last() == (depois@[i as int].0@, depois@[i as int].1));
        let p = caracteres_de(&depois[i].0);
        let s = depois[i].1;
        let ghost ant = vistas_mudancas(r@);
        match tamanho_exec(antes, p.as_slice()) {
            None => {
                let m = Mudanca::Criado { caminho: copiar(depois[i].0.as_str()), bytes: s };
                r.push(m);
                assert(vistas_mudancas(r@) =~= ant.push(MudancaS::Criado(p@, s)));
            },
            Some(s0) => {
                if s0 != s || contem_caminho(diferentes, p.as_slice()) {
                    let m = Mudanca::Alterado { caminho: copiar(depois[i].0.as_str()), antes: s0, depois: s };
                    r.push(m);
                    assert(vistas_mudancas(r@) =~= ant.push(MudancaS::Alterado(p@, s0, s)));
                }
            },
        }
        i = i + 1;
    }
    assert(dv.take(depois@.len() as int) =~= dv);
    let ghost meio = vistas_mudancas(r@);
    let mut j: usize = 0;
    assert(av.take(0) =~= Seq::<(Seq<char>, u64)>::empty());
    assert(meio + removidos(av.take(0), dv) =~= meio);
    while j < antes.len()
        invariant
            j <= antes@.len(),
            dv == listagem(depois@),
            av == listagem(antes@),
            vistas_mudancas(r@) == meio + removidos(av.take(j as int), dv),
        decreases antes.len() - j,
    {
        assert(av.take(j + 1).drop_last() =~= av.take(j as int));
        assert(av.take(j + 1).last() == (antes@[j as int].0@, antes@[j as int].1));
        let p = caracteres_de(&antes[j].0);
        let ghost ant = vistas_mudancas(r@);
        if tamanho_exec(depois, p.as_slice()).is_none() {
            let m = Mudanca::Removido { caminho: copiar(antes[j].0.as_str()), bytes: antes[j].1 };
            r.push(m);
            assert(vistas_mudancas(r@) =~= ant.push(MudancaS::Removido(p@, antes@[j as int].1)));
            assert(meio + removidos(av.take(j + 1), dv) =~= (meio + removidos(av.take(j as int), dv)).push(MudancaS::Removido(p@, antes@[j as int].1)));
        }
        j = j + 1;
    }
    assert(av.take(antes@.len() as int) =~= av);
    r
}


// ───────────────────────────── a ordem dos caminhos

pub open spec fn caminho_s(m: MudancaS) -> Seq<char> {
    match m {
        MudancaS::Criado(p, _) => p,
        MudancaS::Alterado(p, _, _) => p,
        MudancaS::Removido(p, _) => p,
    }
}

/// O peso de um caractere na ordem dos caminhos: os separadores antes de tudo
/// (`\` e depois `/`), os outros pela ordem do código.
pub open spec fn peso(c: char) -> int {
    if c == '\\' {
        0
    } else if c == '/' {
        1
    } else {
        (c as int) + 2
    }
}

/// `a` vem antes de `b`, ou é `b`: caractere a caractere pelo peso, e quem acaba
/// primeiro vem antes. Em caminhos relativos de nomes separados por um separador,
/// é a ordem nome a nome de `Path`.
pub open spec fn caminho_ate(a: Seq<char>, b: Seq<char>) -> bool
    decreases a.len(),
{
    if a.len() == 0 {
        true
    } else if b.len() == 0 {
        false
    } else if peso(a[0]) != peso(b[0]) {
        peso(a[0]) < peso(b[0])
    } else {
        caminho_ate(a.drop_first(), b.drop_first())
    }
}

/// Em ordem de caminho.
pub open spec fn em_ordem(v: Seq<MudancaS>) -> bool {
    forall|i: int, j: int| 0 <= i < j < v.len() ==> caminho_ate(caminho_s(#[trigger] v[i]), caminho_s(#[trigger] v[j]))
}

/// Cada caminho uma vez só.
pub open spec fn caminhos_distintos(v: Seq<MudancaS>) -> bool {
    forall|i: int, j: int| 0 <= i < j < v.len() ==> caminho_s(#[trigger] v[i]) != caminho_s(#[trigger] v[j])
}

proof fn lema_ate_total(a: Seq<char>, b: Seq<char>)
    ensures
        caminho_ate(a, b) || caminho_ate(b, a),
    decreases a.len(),
{
    if a.len() > 0 && b.len() > 0 && peso(a[0]) == peso(b[0]) {
        lema_ate_total(a.drop_first(), b.drop_first());
    }
}

proof fn lema_ate_transitivo(a: Seq<char>, b: Seq<char>, c: Seq<char>)
    requires
        caminho_ate(a, b),
        caminho_ate(b, c),
    ensures
        caminho_ate(a, c),
    decreases a.len(),
{
    if a.len() > 0 && b.len() > 0 && c.len() > 0 && peso(a[0]) == peso(b[0]) && peso(b[0]) == peso(c[0]) {
        lema_ate_transitivo(a.drop_first(), b.drop_first(), c.drop_first());
    }
}

fn peso_exec(c: char) -> (r: u32)
    ensures
        r == peso(c),
{
    if c == '\\' {
        0
    } else if c == '/' {
        1
    } else {
        (c as u32) + 2
    }
}

fn caminho_ate_exec(a: &[char], b: &[char]) -> (r: bool)
    ensures
        r == caminho_ate(a@, b@),
{
    let mut i: usize = 0;
    assert(a@.subrange(0, a@.len() as int) =~= a@);
    assert(b@.subrange(0, b@.len() as int) =~= b@);
    while i < a.len() && i < b.len() && peso_exec(a[i]) == peso_exec(b[i])
        invariant
            i <= a.len(),
            i <= b.len(),
            caminho_ate(a@, b@) == caminho_ate(a@.subrange(i as int, a@.len() as int), b@.subrange(i as int, b@.len() as int)),
        decreases a.len() - i,
    {
        assert(a@.subrange(i as int, a@.len() as int).drop_first() =~= a@.subrange(i + 1, a@.len() as int));
        assert(b@.subrange(i as int, b@.len() as int).drop_first() =~= b@.subrange(i + 1, b@.len() as int));
        i = i + 1;
    }
    if i == a.len() {
        true
    } else if i == b.len() {
        false
    } else {
        peso_exec(a[i]) < peso_exec(b[i])
    }
}

/// Onde `x` entra numa lista em ordem: depois de tudo o que vem antes dele ou junto.
fn onde_entra(r: &Vec<Mudanca>, x: &Mudanca) -> (p: usize)
    ensures
        p <= r.len(),
        forall|i: int| 0 <= i < p ==> caminho_ate(caminho_de(#[trigger] r@[i]), caminho_de(*x)),
        p < r.len() ==> !caminho_ate(caminho_de(r@[p as int]), caminho_de(*x)),
{
    let xc = caracteres_de(x.caminho());
    let mut p: usize = 0;
    while p < r.len()
        invariant
            p <= r.len(),
            xc@ == caminho_de(*x),
            forall|i: int| 0 <= i < p ==> caminho_ate(caminho_de(#[trigger] r@[i]), caminho_de(*x)),
        decreases r.len() - p,
    {
        let c = caracteres_de(r[p].caminho());
        if !caminho_ate_exec(c.as_slice(), xc.as_slice()) {
            return p;
        }
        p = p + 1;
    }
    p
}

proof fn lema_caminho_da_vista(v: Seq<Mudanca>, i: int)
    requires
        0 <= i < v.len(),
    ensures
        caminho_s(vistas_mudancas(v)[i]) == caminho_de(v[i]),
{
}

/// As mudanças em ordem de caminho: as mesmas, cada uma quantas vezes vinha.
fn ordenar(v: Vec<Mudanca>) -> (r: Vec<Mudanca>)
    ensures
        vistas_mudancas(r@).to_multiset() == vistas_mudancas(v@).to_multiset(),
        em_ordem(vistas_mudancas(r@)),
        caminhos_distintos(vistas_mudancas(v@)) ==> caminhos_distintos(vistas_mudancas(r@)),
{
    broadcast use vstd::seq_lib::group_to_multiset_ensures, vstd::multiset::group_multiset_axioms;

    let ghost orig = vistas_mudancas(v@);
    let ghost dist = caminhos_distintos(orig);
    let mut v = v;
    let mut r: Vec<Mudanca> = Vec::new();
    assert(vistas_mudancas(r@) =~= Seq::<MudancaS>::empty());
    assert(vistas_mudancas(r@).to_multiset().add(vistas_mudancas(v@).to_multiset()) =~= orig.to_multiset());
    while v.len() > 0
        invariant
            vistas_mudancas(r@).to_multiset().add(vistas_mudancas(v@).to_multiset()) == orig.to_multiset(),
            em_ordem(vistas_mudancas(r@)),
            dist == caminhos_distintos(orig),
            dist ==> caminhos_distintos(vistas_mudancas(r@)),
            dist ==> caminhos_distintos(vistas_mudancas(v@)),
            dist ==> forall|i: int, j: int| 0 <= i < r@.len() && 0 <= j < v@.len() ==> caminho_de(#[trigger] r@[i]) != caminho_de(#[trigger] v@[j]),
        decreases v.len(),
    {
        let ghost vr = vistas_mudancas(r@);
        let ghost vv = vistas_mudancas(v@);
        let ghost rv = r@;
        let ghost vvec = v@;
        let x = v.pop().unwrap();
        let ghost xs = vista_mudanca(x);
        assert(vv =~= vistas_mudancas(v@).push(xs));
        let p = onde_entra(&r, &x);
        r.insert(p, x);
        let ghost nr = vistas_mudancas(r@);
        assert(nr =~= vr.insert(p as int, xs));
        proof {
            // o multiconjunto
            assert(nr.remove(p as int) =~= vr);
            assert(nr[p as int] == xs);
            nr.to_multiset_ensures();
            assert(nr.contains(xs));
            assert(nr.to_multiset().count(xs) > 0);
            assert(vr.to_multiset() =~= nr.to_multiset().remove(xs));
            assert(nr.to_multiset() =~= vr.to_multiset().insert(xs));
            vistas_mudancas(v@).to_multiset_ensures();
            assert(vv.to_multiset() =~= vistas_mudancas(v@).to_multiset().insert(xs));
            assert(nr.to_multiset().add(vistas_mudancas(v@).to_multiset()) =~= vr.to_multiset().add(vv.to_multiset()));
            // a ordem
            assert forall|i: int, j: int| 0 <= i < j < nr.len() implies caminho_ate(caminho_s(#[trigger] nr[i]), caminho_s(#[trigger] nr[j])) by {
                let pi = p as int;
                if j < pi {
                    assert(nr[i] == vr[i] && nr[j] == vr[j]);
                } else if j == pi {
                    assert(nr[i] == vr[i]);
                    lema_caminho_da_vista(rv, i);
                    assert(caminho_ate(caminho_de(rv[i]), caminho_de(x)));
                } else if i > pi {
                    assert(nr[i] == vr[i - 1] && nr[j] == vr[j - 1]);
                } else if i == pi {
                    assert(nr[j] == vr[j - 1]);
                    lema_caminho_da_vista(rv, pi);
                    lema_ate_total(caminho_s(vr[pi]), caminho_s(xs));
                    if j - 1 > pi {
                        assert(caminho_ate(caminho_s(vr[pi]), caminho_s(vr[j - 1])));
                        lema_ate_transitivo(caminho_s(xs), caminho_s(vr[pi]), caminho_s(vr[j - 1]));
                    }
                } else {
                    assert(nr[i] == vr[i] && nr[j] == vr[j - 1]);
                }
            }
            // os caminhos distintos
            if dist {
                assert forall|i: int, j: int| 0 <= i < j < nr.len() implies caminho_s(#[trigger] nr[i]) != caminho_s(#[trigger] nr[j]) by {
                    let pi = p as int;
                    let k = vvec.len() - 1;
                    lema_caminho_da_vista(vvec, k);
                    if i == pi {
                        lema_caminho_da_vista(rv, j - 1);
                        assert(caminho_de(rv[j - 1]) != caminho_de(vvec[k]));
                        assert(nr[j] == vr[j - 1]);
                    } else if j == pi {
                        lema_caminho_da_vista(rv, i);
                        assert(caminho_de(rv[i]) != caminho_de(vvec[k]));
                        assert(nr[i] == vr[i]);
                    } else {
                        let a = if i < pi { i } else { i - 1 };
                        let b = if j < pi { j } else { j - 1 };
                        assert(nr[i] == vr[a] && nr[j] == vr[b]);
                    }
                }
                assert forall|i: int, j: int| 0 <= i < j < vistas_mudancas(v@).len() implies caminho_s(#[trigger] vistas_mudancas(v@)[i]) != caminho_s(#[trigger] vistas_mudancas(v@)[j]) by {
                    assert(vistas_mudancas(v@)[i] == vv[i] && vistas_mudancas(v@)[j] == vv[j]);
                }
                assert forall|i: int, j: int| 0 <= i < r@.len() && 0 <= j < v@.len() implies caminho_de(#[trigger] r@[i]) != caminho_de(#[trigger] v@[j]) by {
                    let pi = p as int;
                    let k = vvec.len() - 1;
                    assert(v@[j] == vvec[j]);
                    lema_caminho_da_vista(vvec, j);
                    lema_caminho_da_vista(vvec, k);
                    if i == pi {
                        assert(r@[i] == x);
                        assert(vv[j] == vistas_mudancas(vvec)[j]);
                        assert(caminho_s(vv[j]) != caminho_s(vv[k]));
                    } else {
                        let a = if i < pi { i } else { i - 1 };
                        assert(r@[i] == rv[a]);
                    }
                }
            }
        }
    }
    assert(vistas_mudancas(v@) =~= Seq::<MudancaS>::empty());
    assert(vistas_mudancas(r@).to_multiset().add(Seq::<MudancaS>::empty().to_multiset()) =~= vistas_mudancas(r@).to_multiset());
    r
}

/// Tudo o que mudou, na ordem das listagens: criados e alterados na ordem da
/// cópia, depois os removidos na ordem da original.
pub open spec fn mudancas_de(
    antes: Seq<(Seq<char>, u64)>,
    depois: Seq<(Seq<char>, u64)>,
    diferentes: Seq<Seq<char>>,
) -> Seq<MudancaS> {
    criados_e_alterados(depois, antes, diferentes) + removidos(antes, depois)
}

proof fn lema_tamanho_esta(l: Seq<(Seq<char>, u64)>, i: int)
    requires
        0 <= i < l.len(),
    ensures
        tamanho_em(l, l[i].0) is Some,
    decreases l.len(),
{
    if i > 0 && l[0].0 != l[i].0 {
        assert(l.drop_first()[i - 1] == l[i]);
        lema_tamanho_esta(l.drop_first(), i - 1);
    }
}

proof fn lema_tamanho_fora(l: Seq<(Seq<char>, u64)>, p: Seq<char>)
    requires
        forall|i: int| 0 <= i < l.len() ==> (#[trigger] l[i]).0 != p,
    ensures
        tamanho_em(l, p) is None,
    decreases l.len(),
{
    if l.len() > 0 {
        let d = l.drop_first();
        assert forall|i: int| 0 <= i < d.len() implies (#[trigger] d[i]).0 != p by {
            assert(d[i] == l[i + 1]);
        }
        assert(l[0].0 != p);
        lema_tamanho_fora(d, p);
    }
}

proof fn lema_tamanho_cresce(l: Seq<(Seq<char>, u64)>, e: (Seq<char>, u64), p: Seq<char>)
    requires
        tamanho_em(l, p) is Some,
    ensures
        tamanho_em(l.push(e), p) == tamanho_em(l, p),
    decreases l.len(),
{
    if l[0].0 != p {
        assert(l.push(e).drop_first() =~= l.drop_first().push(e));
        lema_tamanho_cresce(l.drop_first(), e, p);
    }
}

proof fn lema_unicos_prefixo(l: Seq<(Seq<char>, u64)>)
    requires
        l.len() > 0,
        caminhos_unicos(l),
    ensures
        caminhos_unicos(l.drop_last()),
        tamanho_em(l.drop_last(), l.last().0) is None,
{
    let w = l.drop_last();
    assert forall|a: int, b: int| 0 <= a < b < w.len() implies w[a].0 != w[b].0 by {
        assert(w[a] == l[a] && w[b] == l[b]);
    }
    assert forall|i: int| 0 <= i < w.len() implies (#[trigger] w[i]).0 != l.last().0 by {
        assert(w[i] == l[i]);
    }
    lema_tamanho_fora(w, l.last().0);
}

proof fn lema_criados_distintos(d: Seq<(Seq<char>, u64)>, a: Seq<(Seq<char>, u64)>, f: Seq<Seq<char>>)
    requires
        caminhos_unicos(d),
    ensures
        caminhos_distintos(criados_e_alterados(d, a, f)),
        forall|k: int| 0 <= k < criados_e_alterados(d, a, f).len() ==> tamanho_em(d, caminho_s(#[trigger] criados_e_alterados(d, a, f)[k])) is Some,
    decreases d.len(),
{
    if d.len() > 0 {
        let w = d.drop_last();
        lema_unicos_prefixo(d);
        lema_criados_distintos(w, a, f);
        let r = criados_e_alterados(w, a, f);
        let c = criados_e_alterados(d, a, f);
        assert(w.push(d.last()) =~= d);
        assert forall|k: int| 0 <= k < r.len() implies tamanho_em(d, caminho_s(#[trigger] r[k])) is Some by {
            lema_tamanho_cresce(w, d.last(), caminho_s(r[k]));
        }
        lema_tamanho_esta(d, d.len() - 1);
        if c.len() > r.len() {
            assert(c == r.push(c.last()));
            assert(caminho_s(c.last()) == d.last().0);
            assert forall|k: int| 0 <= k < c.len() implies tamanho_em(d, caminho_s(#[trigger] c[k])) is Some by {
                if k < r.len() {
                    assert(c[k] == r[k]);
                }
            }
            assert forall|i: int, j: int| 0 <= i < j < c.len() implies caminho_s(#[trigger] c[i]) != caminho_s(#[trigger] c[j]) by {
                assert(c[i] == r[i]);
                if j == r.len() {
                    assert(tamanho_em(w, caminho_s(r[i])) is Some);
                } else {
                    assert(c[j] == r[j]);
                }
            }
        } else {
            assert(c == r);
        }
    }
}

proof fn lema_removidos_distintos(a: Seq<(Seq<char>, u64)>, d: Seq<(Seq<char>, u64)>)
    requires
        caminhos_unicos(a),
    ensures
        caminhos_distintos(removidos(a, d)),
        forall|k: int| 0 <= k < removidos(a, d).len() ==> tamanho_em(d, caminho_s(#[trigger] removidos(a, d)[k])) is None
            && tamanho_em(a, caminho_s(removidos(a, d)[k])) is Some,
    decreases a.len(),
{
    if a.len() > 0 {
        let w = a.drop_last();
        lema_unicos_prefixo(a);
        lema_removidos_distintos(w, d);
        let r = removidos(w, d);
        let c = removidos(a, d);
        assert(w.push(a.last()) =~= a);
        assert forall|k: int| 0 <= k < r.len() implies tamanho_em(a, caminho_s(#[trigger] r[k])) is Some by {
            lema_tamanho_cresce(w, a.last(), caminho_s(r[k]));
        }
        lema_tamanho_esta(a, a.len() - 1);
        if c.len() > r.len() {
            assert(c == r.push(c.last()));
            assert forall|k: int| 0 <= k < c.len() implies tamanho_em(d, caminho_s(#[trigger] c[k])) is None
                && tamanho_em(a, caminho_s(c[k])) is Some by {
                if k < r.len() {
                    assert(c[k] == r[k]);
                }
            }
            assert forall|i: int, j: int| 0 <= i < j < c.len() implies caminho_s(#[trigger] c[i]) != caminho_s(#[trigger] c[j]) by {
                assert(c[i] == r[i]);
                if j == r.len() {
                    assert(tamanho_em(w, caminho_s(r[i])) is Some);
                } else {
                    assert(c[j] == r[j]);
                }
            }
        } else {
            assert(c == r);
        }
    }
}

/// Com listagens de caminhos únicos, cada caminho muda uma vez só.
proof fn lema_mudancas_distintas(a: Seq<(Seq<char>, u64)>, d: Seq<(Seq<char>, u64)>, f: Seq<Seq<char>>)
    requires
        caminhos_unicos(a),
        caminhos_unicos(d),
    ensures
        caminhos_distintos(mudancas_de(a, d, f)),
{
    lema_criados_distintos(d, a, f);
    lema_removidos_distintos(a, d);
    let x = criados_e_alterados(d, a, f);
    let y = removidos(a, d);
    let m = mudancas_de(a, d, f);
    assert forall|i: int, j: int| 0 <= i < j < m.len() implies caminho_s(#[trigger] m[i]) != caminho_s(#[trigger] m[j]) by {
        if j < x.len() {
            assert(m[i] == x[i] && m[j] == x[j]);
        } else if i >= x.len() {
            assert(m[i] == y[i - x.len()] && m[j] == y[j - x.len()]);
        } else {
            assert(m[i] == x[i] && m[j] == y[j - x.len()]);
            assert(tamanho_em(d, caminho_s(x[i])) is Some);
            assert(tamanho_em(d, caminho_s(y[j - x.len()])) is None);
        }
    }
}

/// O que mudou entre a listagem da original (`antes`) e a da cópia (`depois`):
/// os criados, os alterados (outro tamanho, ou caminho em `diferentes`: mesmo
/// tamanho com conteúdo diferente) e os removidos, em ordem de caminho (ver
/// [`caminho_ate`]). Com listagens de caminhos únicos, cada caminho aparece uma vez.
pub fn diferencas(antes: &[(String, u64)], depois: &[(String, u64)], diferentes: &[String]) -> (r: Vec<Mudanca>)
    ensures
        vistas_mudancas(r@).to_multiset() == mudancas_de(
            listagem(antes@),
            listagem(depois@),
            diferentes@.map_values(|x: String| x@),
        ).to_multiset(),
        em_ordem(vistas_mudancas(r@)),
        caminhos_unicos(listagem(antes@)) && caminhos_unicos(listagem(depois@)) ==> caminhos_distintos(
            vistas_mudancas(r@),
        ),
{
    let m = mudancas_nas_listagens(antes, depois, diferentes);
    proof {
        if caminhos_unicos(listagem(antes@)) && caminhos_unicos(listagem(depois@)) {
            lema_mudancas_distintas(listagem(antes@), listagem(depois@), diferentes@.map_values(|x: String| x@));
        }
    }
    ordenar(m)
}

/// Cada caminho aparece uma vez só na listagem.
pub open spec fn caminhos_unicos(l: Seq<(Seq<char>, u64)>) -> bool {
    forall|i: int, j: int| 0 <= i < j < l.len() ==> l[i].0 != l[j].0
}

proof fn lema_tamanho_em(l: Seq<(Seq<char>, u64)>, i: int)
    requires
        caminhos_unicos(l),
        0 <= i < l.len(),
    ensures
        tamanho_em(l, l[i].0) == Some(l[i].1),
    decreases l.len(),
{
    if i > 0 {
        assert(l[0].0 != l[i].0);
        let d = l.drop_first();
        assert(d[i - 1] == l[i]);
        assert(caminhos_unicos(d)) by {
            assert forall|a: int, b: int| 0 <= a < b < d.len() implies d[a].0 != d[b].0 by {
                assert(d[a] == l[a + 1] && d[b] == l[b + 1]);
            }
        }
        lema_tamanho_em(d, i - 1);
    }
}

proof fn lema_nada_criado(d: Seq<(Seq<char>, u64)>, l: Seq<(Seq<char>, u64)>, f: Seq<Seq<char>>)
    requires
        caminhos_unicos(l),
        d.len() <= l.len(),
        d == l.take(d.len() as int),
        f.len() == 0,
    ensures
        criados_e_alterados(d, l, f) == Seq::<MudancaS>::empty(),
    decreases d.len(),
{
    if d.len() > 0 {
        let k = d.len() - 1;
        assert(d.drop_last() =~= l.take(k));
        lema_nada_criado(d.drop_last(), l, f);
        assert(d.last() == l[k]);
        lema_tamanho_em(l, k);
    }
}

proof fn lema_nada_removido(a: Seq<(Seq<char>, u64)>, l: Seq<(Seq<char>, u64)>)
    requires
        caminhos_unicos(l),
        a.len() <= l.len(),
        a == l.take(a.len() as int),
    ensures
        removidos(a, l) == Seq::<MudancaS>::empty(),
    decreases a.len(),
{
    if a.len() > 0 {
        let k = a.len() - 1;
        assert(a.drop_last() =~= l.take(k));
        lema_nada_removido(a.drop_last(), l);
        assert(a.last() == l[k]);
        lema_tamanho_em(l, k);
    }
}

/// Uma cópia em que nada foi tocado não tem diferença nenhuma com a original.
pub proof fn lei_copia_intacta_nao_muda_nada(l: Seq<(Seq<char>, u64)>)
    requires
        caminhos_unicos(l),
    ensures
        criados_e_alterados(l, l, seq![]) + removidos(l, l) == Seq::<MudancaS>::empty(),
{
    assert(l.take(l.len() as int) =~= l);
    lema_nada_criado(l, l, seq![]);
    lema_nada_removido(l, l);
    assert(Seq::<MudancaS>::empty() + Seq::<MudancaS>::empty() =~= Seq::<MudancaS>::empty());
}

} // verus!
