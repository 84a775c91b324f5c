//! Ferramentas **como dados**.
//!
//! Uma ferramenta não é código: é uma entrada num registro — nome, descrição em
//! português, lista de parâmetros, e qual primitiva executa. O registro se
//! auto-documenta: [`Registro::manual`] gera o texto que a Teka lê durante o treino.
use vstd::prelude::*;
use crate::diario::vista_args;
use crate::prim::{plano, plano_vale, Acao, AcaoS, Primitiva};
use crate::seguranca::Politica;
use crate::texto::{
    acrescentar_str, acrescentar_vec, aparado, aparar, caracteres, caracteres_de, copiar, decimal,
    e_branco, escrever_decimal, fatia, iguais, sem_branco_final, sem_branco_inicial, string_de,
};

verus! {

#[derive(Clone, Copy, Debug, PartialEq, Eq, Structural)]
pub enum TipoParam {
    /// Caminho de arquivo ou pasta — quase sempre copiado literalmente do pedido.
    Caminho,
    Texto,
    Numero,
}

pub open spec fn rotulo_de(t: TipoParam) -> Seq<char> {
    match t {
        TipoParam::Caminho => "caminho"@,
        TipoParam::Texto => "texto"@,
        TipoParam::Numero => "numero"@,
    }
}

impl TipoParam {
    pub fn rotulo(&self) -> (r: &'static str)
        ensures
            r@ == rotulo_de(*self),
    {
        match self {
            TipoParam::Caminho => "caminho",
            TipoParam::Texto => "texto",
            TipoParam::Numero => "numero",
        }
    }
}

#[derive(Clone, Debug)]
pub struct Param {
    pub nome: String,
    pub tipo: TipoParam,
    pub obrigatorio: bool,
}

impl Param {
    pub fn obrigatorio(nome: &str, tipo: TipoParam) -> (r: Self)
        ensures
            r.nome@ == nome@,
            r.tipo == tipo,
            r.obrigatorio,
    {
        Param { nome: copiar(nome), tipo, obrigatorio: true }
    }

    pub fn opcional(nome: &str, tipo: TipoParam) -> (r: Self)
        ensures
            r.nome@ == nome@,
            r.tipo == tipo,
            !r.obrigatorio,
    {
        Param { nome: copiar(nome), tipo, obrigatorio: false }
    }
}

#[derive(Clone, Debug)]
pub struct Ferramenta {
    pub nome: String,
    pub descricao: String,
    pub params: Vec<Param>,
    pub prim: Primitiva,
}

#[derive(Clone, Debug)]
pub struct Registro {
    pub ferramentas: Vec<Ferramenta>,
}

impl Default for Registro {
    fn default() -> (r: Self)
        ensures
            r.ferramentas@.len() == 0,
    {
        Registro { ferramentas: Vec::new() }
    }
}

/// Uma chamada concreta: qual ferramenta, com quais argumentos.
#[derive(Clone, Debug, PartialEq, Eq)]
pub struct Chamada {
    pub ferramenta: usize,
    pub args: Vec<(String, String)>,
}

pub open spec fn nomes_de(fs: Seq<Ferramenta>) -> Seq<Seq<char>> {
    fs.map_values(|f: Ferramenta| f.nome@)
}

/// A posição do primeiro nome igual a `nome`.
pub open spec fn indice_de(nomes: Seq<Seq<char>>, nome: Seq<char>) -> Option<nat>
    decreases nomes.len(),
{
    if nomes.len() == 0 {
        None
    } else {
        match indice_de(nomes.drop_last(), nome) {
            Some(i) => Some(i),
            None => if nomes.last() == nome {
                Some((nomes.len() - 1) as nat)
            } else {
                None
            },
        }
    }
}

/// Algum argumento tem este nome?
pub open spec fn tem_arg(args: Seq<(String, String)>, nome: Seq<char>) -> bool {
    exists|i: int| 0 <= i < args.len() && args[i].0@ == nome
}

/// O primeiro parâmetro obrigatório que falta nos argumentos.
pub open spec fn faltando(ps: Seq<Param>, args: Seq<(String, String)>) -> Option<Seq<char>>
    decreases ps.len(),
{
    if ps.len() == 0 {
        None
    } else {
        match faltando(ps.drop_last(), args) {
            Some(n) => Some(n),
            None => if ps.last().obrigatorio && !tem_arg(args, ps.last().nome@) {
                Some(ps.last().nome@)
            } else {
                None
            },
        }
    }
}

/// O que [`Registro::executar`] devolve.
pub open spec fn execucao(fs: Seq<Ferramenta>, c: Chamada, pol: Politica) -> Result<
    AcaoS,
    Seq<char>,
> {
    if c.ferramenta >= fs.len() {
        Err("ferramenta "@ + decimal(c.ferramenta as u64) + " não existe"@)
    } else {
        let f = fs[c.ferramenta as int];
        match faltando(f.params@, c.args@) {
            Some(p) => Err(f.nome@ + ": falta o parâmetro obrigatório "@ + p),
            None => plano(f.prim, c.args@, pol),
        }
    }
}

// ───────────────────────────── o texto de uma chamada

/// `,"k":"v"` para cada argumento.
pub open spec fn texto_args(args: Seq<(Seq<char>, Seq<char>)>) -> Seq<char>
    decreases args.len(),
{
    if args.len() == 0 {
        seq![]
    } else {
        texto_args(args.drop_last()) + ",\""@ + args.last().0 + "\":\""@ + args.last().1 + "\""@
    }
}

/// `{"acao":"nome","k":"v",...}`: o formato que o autômato aceita.
pub open spec fn texto_chamada(nome: Seq<char>, args: Seq<(Seq<char>, Seq<char>)>) -> Seq<char> {
    "{\"acao\":\""@ + nome + "\""@ + texto_args(args) + "}"@
}

/// Os nomes dos parâmetros obrigatórios.
pub open spec fn obrigatorios(ps: Seq<Param>) -> Seq<(Seq<char>, Seq<char>)>
    decreases ps.len(),
{
    if ps.len() == 0 {
        seq![]
    } else if ps.last().obrigatorio {
        obrigatorios(ps.drop_last()).push((ps.last().nome@, "..."@))
    } else {
        obrigatorios(ps.drop_last())
    }
}

/// Um exemplo de uso: a chamada com `...` em cada parâmetro obrigatório.
pub open spec fn exemplo(f: Ferramenta) -> Seq<char> {
    texto_chamada(f.nome@, obrigatorios(f.params@))
}

fn escrever_args(s: &mut Vec<char>, args: &[(String, String)])
    ensures
        final(s)@ == old(s)@ + texto_args(vista_args(args@)),
{
    let mut i: usize = 0;
    let ghost ini = s@;
    assert(vista_args(args@).take(0) =~= Seq::<(Seq<char>, Seq<char>)>::empty());
    while i < args.len()
        invariant
            i <= args.len(),
            s@ == ini + texto_args(vista_args(args@).take(i as int)),
        decreases args.len() - i,
    {
        let ghost antes = s@;
        let v1 = caracteres(",\"");
        acrescentar_vec(s, v1.as_slice());
        let k = caracteres_de(&args[i].0);
        acrescentar_vec(s, k.as_slice());
        let v2 = caracteres("\":\"");
        acrescentar_vec(s, v2.as_slice());
        let v = caracteres_de(&args[i].1);
        acrescentar_vec(s, v.as_slice());
        s.push('"');
        proof {
            let a = vista_args(args@);
            assert(a.take(i + 1).drop_last() =~= a.take(i as int));
            assert(a.take(i + 1).last() == (args@[i as int].0@, args@[i as int].1@));
            reveal_strlit("\"");
            assert(s@ =~= antes + ",\""@ + args@[i as int].0@ + "\":\""@ + args@[i as int].1@
                + "\""@);
        }
        i = i + 1;
    }
    assert(vista_args(args@).take(args.len() as int) =~= vista_args(args@));
}

fn escrever_chamada(nome: &str, args: &[(String, String)]) -> (r: String)
    ensures
        r@ == texto_chamada(nome@, vista_args(args@)),
{
    let mut s = caracteres("{\"acao\":\"");
    let n = caracteres(nome);
    acrescentar_vec(&mut s, n.as_slice());
    s.push('"');
    escrever_args(&mut s, args);
    s.push('}');
    proof {
        reveal_strlit("\"");
        reveal_strlit("}");
    }
    assert(s@ =~= texto_chamada(nome@, vista_args(args@)));
    string_de(s.as_slice())
}

/// Um exemplo de uso da ferramenta: `{"acao":"nome","p":"..."}` com os
/// parâmetros obrigatórios.
pub fn exemplo_de_uso(f: &Ferramenta) -> (r: String)
    ensures
        r@ == exemplo(*f),
{
    let mut args: Vec<(String, String)> = Vec::new();
    let mut i: usize = 0;
    assert(f.params@.take(0) =~= Seq::<Param>::empty());
    while i < f.params.len()
        invariant
            i <= f.params@.len(),
            vista_args(args@) == obrigatorios(f.params@.take(i as int)),
        decreases f.params.len() - i,
    {
        let ghost antes = args@;
        assert(f.params@.take(i + 1).drop_last() =~= f.params@.take(i as int));
        if f.params[i].obrigatorio {
            args.push((f.params[i].nome.clone(), copiar("...")));
            assert(vista_args(args@) =~= vista_args(antes).push(
                (f.params@[i as int].nome@, "..."@),
            ));
        }
        i = i + 1;
    }
    assert(f.params@.take(f.params@.len() as int) =~= f.params@);
    escrever_chamada(f.nome.as_str(), args.as_slice())
}

impl Chamada {
    /// Serializa no formato que o autômato aceita.
    pub fn texto(&self, reg: &Registro) -> (r: String)
        requires
            self.ferramenta < reg.ferramentas@.len(),
        ensures
            r@ == texto_chamada(
                reg.ferramentas@[self.ferramenta as int].nome@,
                vista_args(self.args@),
            ),
    {
        escrever_chamada(reg.ferramentas[self.ferramenta].nome.as_str(), self.args.as_slice())
    }
}

proof fn lema_indice_de(nomes: Seq<Seq<char>>, nome: Seq<char>)
    ensures
        match indice_de(nomes, nome) {
            Some(i) => i < nomes.len() && nomes[i as int] == nome && forall|k: int|
                0 <= k < i ==> nomes[k] != nome,
            None => forall|k: int| 0 <= k < nomes.len() ==> nomes[k] != nome,
        },
    decreases nomes.len(),
{
    if nomes.len() > 0 {
        let w = nomes.drop_last();
        lema_indice_de(w, nome);
        assert forall|k: int| 0 <= k < w.len() implies w[k] == nomes[k] by {}
        if indice_de(w, nome) is None && nomes.last() != nome {
            assert forall|k: int| 0 <= k < nomes.len() implies nomes[k] != nome by {
                if k < w.len() {
                    assert(w[k] != nome);
                }
            }
        }
    }
}

proof fn lema_faltando_prefixo(ps: Seq<Param>, args: Seq<(String, String)>, j: int)
    requires
        0 <= j <= ps.len(),
        faltando(ps.take(j), args) is Some,
    ensures
        faltando(ps, args) == faltando(ps.take(j), args),
    decreases ps.len(),
{
    if j == ps.len() {
        assert(ps.take(j) =~= ps);
    } else {
        assert(ps.drop_last().take(j) =~= ps.take(j));
        lema_faltando_prefixo(ps.drop_last(), args, j);
    }
}

fn tem_arg_exec(args: &[(String, String)], nome: &String) -> (r: bool)
    ensures
        r == tem_arg(args@, nome@),
{
    let n = caracteres_de(nome);
    let mut i: usize = 0;
    while i < args.len()
        invariant
            i <= args.len(),
            n@ == nome@,
            forall|k: int| 0 <= k < i ==> args@[k].0@ != nome@,
        decreases args.len() - i,
    {
        let k = caracteres_de(&args[i].0);
        if iguais(k.as_slice(), n.as_slice()) {
            return true;
        }
        i = i + 1;
    }
    false
}

fn primeiro_faltando(ps: &Vec<Param>, args: &[(String, String)]) -> (r: Option<String>)
    ensures
        match faltando(ps@, args@) {
            Some(n) => r matches Some(x) && x@ == n,
            None => r is None,
        },
{
    let mut i: usize = 0;
    assert(ps@.take(0) =~= Seq::<Param>::empty());
    while i < ps.len()
        invariant
            i <= ps@.len(),
            faltando(ps@.take(i as int), args@) is None,
        decreases ps.len() - i,
    {
        assert(ps@.take(i + 1).drop_last() =~= ps@.take(i as int));
        if ps[i].obrigatorio && !tem_arg_exec(args, &ps[i].nome) {
            proof {
                lema_faltando_prefixo(ps@, args@, i + 1);
            }
            return Some(ps[i].nome.clone());
        }
        i = i + 1;
    }
    assert(ps@.take(ps@.len() as int) =~= ps@);
    None
}

// ───────────────────────────── o manual

pub open spec fn item_param(p: Param) -> Seq<char> {
    p.nome@ + " ("@ + rotulo_de(p.tipo) + (if p.obrigatorio {
        seq![]
    } else {
        ", opcional"@
    }) + ")"@
}

/// Os parâmetros separados por `, `.
pub open spec fn lista_params(ps: Seq<Param>) -> Seq<char>
    decreases ps.len(),
{
    if ps.len() == 0 {
        seq![]
    } else if ps.len() == 1 {
        item_param(ps[0])
    } else {
        lista_params(ps.drop_last()) + ", "@ + item_param(ps.last())
    }
}

/// O trecho do manual sobre uma ferramenta.
pub open spec fn bloco(f: Ferramenta) -> Seq<char> {
    "ferramenta: "@ + f.nome@ + "\n  o que faz: "@ + f.descricao@ + "\n"@ + (if f.params@.len()
        > 0 {
        "  parametros: "@ + lista_params(f.params@) + "\n"@
    } else {
        seq![]
    }) + "  uso: "@ + exemplo(f) + "\n\n"@
}

pub open spec fn manual_de(fs: Seq<Ferramenta>) -> Seq<char>
    decreases fs.len(),
{
    if fs.len() == 0 {
        seq![]
    } else {
        manual_de(fs.drop_last()) + bloco(fs.last())
    }
}

fn escrever_item(s: &mut Vec<char>, p: &Param)
    ensures
        final(s)@ == old(s)@ + item_param(*p),
{
    let n = caracteres_de(&p.nome);
    acrescentar_vec(s, n.as_slice());
    let a = caracteres(" (");
    acrescentar_vec(s, a.as_slice());
    let r = caracteres(p.tipo.rotulo());
    acrescentar_vec(s, r.as_slice());
    if !p.obrigatorio {
        let o = caracteres(", opcional");
        acrescentar_vec(s, o.as_slice());
    }
    s.push(')');
    proof {
        reveal_strlit(")");
    }
    assert(final(s)@ =~= old(s)@ + item_param(*p));
}

fn escrever_bloco(s: &mut Vec<char>, f: &Ferramenta)
    ensures
        final(s)@ == old(s)@ + bloco(*f),
{
    let a = caracteres("ferramenta: ");
    acrescentar_vec(s, a.as_slice());
    let n = caracteres_de(&f.nome);
    acrescentar_vec(s, n.as_slice());
    let b = caracteres("\n  o que faz: ");
    acrescentar_vec(s, b.as_slice());
    let d = caracteres_de(&f.descricao);
    acrescentar_vec(s, d.as_slice());
    s.push('\n');
    let ghost meio = s@;
    if f.params.len() > 0 {
        let c = caracteres("  parametros: ");
        acrescentar_vec(s, c.as_slice());
        let ghost ini = s@;
        let mut i: usize = 0;
        while i < f.params.len()
            invariant
                i <= f.params@.len(),
                f.params@.len() > 0,
                s@ == ini + lista_params(f.params@.take(i as int)),
            decreases f.params.len() - i,
        {
            let ghost antes = s@;
            assert(f.params@.take(i + 1).drop_last() =~= f.params@.take(i as int));
            if i > 0 {
                let v = caracteres(", ");
                acrescentar_vec(s, v.as_slice());
            }
            escrever_item(s, &f.params[i]);
            proof {
                if i == 0 {
                    assert(f.params@.take(1) =~= seq![f.params@[0]]);
                    assert(s@ =~= ini + lista_params(f.params@.take(1)));
                } else {
                    assert(s@ =~= ini + lista_params(f.params@.take(i + 1)));
                }
            }
            i = i + 1;
        }
        assert(f.params@.take(f.params@.len() as int) =~= f.params@);
        s.push('\n');
    }
    let u = caracteres("  uso: ");
    acrescentar_vec(s, u.as_slice());
    let e = exemplo_de_uso(f);
    let ev = caracteres_de(&e);
    acrescentar_vec(s, ev.as_slice());
    s.push('\n');
    s.push('\n');
    proof {
        reveal_strlit("\n");
        reveal_strlit("\n\n");
    }
    assert(final(s)@ =~= old(s)@ + bloco(*f));
}

impl Registro {
    pub fn n(&self) -> (r: usize)
        ensures
            r == self.ferramentas@.len(),
    {
        self.ferramentas.len()
    }

    /// A posição da primeira ferramenta com este nome.
    pub fn indice(&self, nome: &str) -> (r: Option<usize>)
        ensures
            match indice_de(nomes_de(self.ferramentas@), nome@) {
                Some(i) => r matches Some(x) && x == i,
                None => r is None,
            },
    {
        let n = caracteres(nome);
        let ghost ns = nomes_de(self.ferramentas@);
        proof {
            lema_indice_de(ns, nome@);
        }
        let mut i: usize = 0;
        while i < self.ferramentas.len()
            invariant
                i <= self.ferramentas@.len(),
                n@ == nome@,
                ns == nomes_de(self.ferramentas@),
                forall|k: int| 0 <= k < i ==> ns[k] != nome@,
                match indice_de(ns, nome@) {
                    Some(j) => j < ns.len() && ns[j as int] == nome@ && forall|k: int|
                        0 <= k < j ==> ns[k] != nome@,
                    None => forall|k: int| 0 <= k < ns.len() ==> ns[k] != nome@,
                },
            decreases self.ferramentas.len() - i,
        {
            let k = caracteres_de(&self.ferramentas[i].nome);
            assert(ns[i as int] == self.ferramentas@[i as int].nome@);
            if iguais(k.as_slice(), n.as_slice()) {
                return Some(i);
            }
            i = i + 1;
        }
        None
    }

    /// Os nomes, na ordem do registro.
    pub fn nomes(&self) -> (r: Vec<&str>)
        ensures
            r@.len() == self.ferramentas@.len(),
            forall|i: int| 0 <= i < r@.len() ==> r@[i]@ == self.ferramentas@[i].nome@,
    {
        let mut r: Vec<&str> = Vec::new();
        let mut i: usize = 0;
        while i < self.ferramentas.len()
            invariant
                i <= self.ferramentas@.len(),
                r@.len() == i,
                forall|k: int| 0 <= k < i ==> r@[k]@ == self.ferramentas@[k].nome@,
            decreases self.ferramentas.len() - i,
        {
            r.push(self.ferramentas[i].nome.as_str());
            i = i + 1;
        }
        r
    }

    /// Confere a chamada contra o registro — a ferramenta existe, os parâmetros
    /// obrigatórios vieram — e pede à primitiva o que fazer.
    pub fn executar(&self, c: &Chamada, pol: &Politica) -> (r: Result<Acao, String>)
        ensures
            plano_vale(r, execucao(self.ferramentas@, *c, *pol)),
    {
        if c.ferramenta >= self.ferramentas.len() {
            let mut v = caracteres("ferramenta ");
            escrever_decimal(c.ferramenta as u64, &mut v);
            let fim = caracteres(" não existe");
            acrescentar_vec(&mut v, fim.as_slice());
            return Err(string_de(v.as_slice()));
        }
        let f = &self.ferramentas[c.ferramenta];
        match primeiro_faltando(&f.params, c.args.as_slice()) {
            Some(p) => {
                let mut s = f.nome.clone();
                acrescentar_str(&mut s, ": falta o parâmetro obrigatório ");
                acrescentar_str(&mut s, p.as_str());
                Err(s)
            },
            None => f.prim.executar(c.args.as_slice(), pol),
        }
    }

    /// O texto que a Teka lê como bytes no treino. O registro se ensina.
    pub fn manual(&self) -> (r: String)
        ensures
            r@ == manual_de(self.ferramentas@),
    {
        let mut s: Vec<char> = Vec::new();
        let mut i: usize = 0;
        while i < self.ferramentas.len()
            invariant
                i <= self.ferramentas@.len(),
                s@ == manual_de(self.ferramentas@.take(i as int)),
            decreases self.ferramentas.len() - i,
        {
            assert(self.ferramentas@.take(i + 1).drop_last() =~= self.ferramentas@.take(i as int));
            escrever_bloco(&mut s, &self.ferramentas[i]);
            i = i + 1;
        }
        assert(self.ferramentas@.take(self.ferramentas@.len() as int) =~= self.ferramentas@);
        string_de(s.as_slice())
    }
}

/// O nome de toda ferramenta aparece no manual.
pub proof fn lei_manual_cita_todas(fs: Seq<Ferramenta>, i: int)
    requires
        0 <= i < fs.len(),
    ensures
        crate::texto::contem(manual_de(fs), fs[i].nome@),
    decreases fs.len(),
{
    let m = manual_de(fs);
    let antes = manual_de(fs.drop_last());
    if i == fs.len() - 1 {
        let b = bloco(fs.last());
        let n = fs.last().nome@;
        reveal_strlit("ferramenta: ");
        let k: int = antes.len() as int + 12;
        assert(m.subrange(k, k + n.len()) =~= n);
        assert(crate::texto::ocorre_em(m, n, k));
    } else {
        lei_manual_cita_todas(fs.drop_last(), i);
        let n = fs[i].nome@;
        assert(fs.drop_last()[i] == fs[i]);
        let k = choose|k: int| crate::texto::ocorre_em(antes, n, k);
        assert(m.subrange(k, k + n.len()) =~= antes.subrange(k, k + n.len()));
        assert(crate::texto::ocorre_em(m, n, k));
    }
}

// ───────────────────────────── lendo uma chamada de volta

/// `dividir_pares`: corta nas vírgulas que estão **fora** de aspas — um caminho do
/// Windows pode conter vírgula. Um pedaço vazio no fim não conta.
pub open spec fn pares_de(s: Seq<char>, i: int, ini: int, dentro: bool, feitas: Seq<Seq<char>>) -> Seq<
    Seq<char>,
>
    decreases s.len() - i,
{
    if i >= s.len() {
        if ini < s.len() {
            feitas.push(s.subrange(ini, s.len() as int))
        } else {
            feitas
        }
    } else if s[i] == '"' {
        pares_de(s, i + 1, ini, !dentro, feitas)
    } else if s[i] == ',' && !dentro {
        pares_de(s, i + 1, i + 1, dentro, feitas.push(s.subrange(ini, i)))
    } else {
        pares_de(s, i + 1, ini, dentro, feitas)
    }
}

pub open spec fn pares(s: Seq<char>) -> Seq<Seq<char>> {
    pares_de(s, 0, 0, false, seq![])
}

/// A posição do primeiro `c`.
pub open spec fn pos_de(s: Seq<char>, c: char) -> Option<nat>
    decreases s.len(),
{
    if s.len() == 0 {
        None
    } else {
        match pos_de(s.drop_last(), c) {
            Some(i) => Some(i),
            None => if s.last() == c {
                Some((s.len() - 1) as nat)
            } else {
                None
            },
        }
    }
}

pub open spec fn sem_aspas_inicio(s: Seq<char>) -> Seq<char>
    decreases s.len(),
{
    if s.len() > 0 && s[0] == '"' {
        sem_aspas_inicio(s.drop_first())
    } else {
        s
    }
}

pub open spec fn sem_aspas_fim(s: Seq<char>) -> Seq<char>
    decreases s.len(),
{
    if s.len() > 0 && s.last() == '"' {
        sem_aspas_fim(s.drop_last())
    } else {
        s
    }
}

/// `trim_matches('"')`.
pub open spec fn sem_aspas(s: Seq<char>) -> Seq<char> {
    sem_aspas_fim(sem_aspas_inicio(s))
}

/// O estado da leitura: a ferramenta (se já veio) e os argumentos.
pub type Leitura = (Option<nat>, Seq<(Seq<char>, Seq<char>)>);

/// Um par `"k":"v"` aplicado à leitura.
pub open spec fn passo(st: Leitura, parte: Seq<char>, nomes: Seq<Seq<char>>) -> Result<
    Leitura,
    Seq<char>,
> {
    match pos_de(parte, ':') {
        None => Err("par sem dois-pontos"@),
        Some(j) => {
            let k = sem_aspas(aparado(parte.subrange(0, j as int)));
            let v = aparado(parte.subrange(j as int + 1, parte.len() as int));
            if !(v.len() >= 2 && v[0] == '"' && v.last() == '"') {
                Err("valor de "@ + k + " nao esta entre aspas"@)
            } else {
                let val = v.subrange(1, v.len() - 1);
                if k == "acao"@ {
                    match indice_de(nomes, val) {
                        None => Err("ferramenta desconhecida: "@ + val),
                        Some(i) => Ok((Some(i), st.1)),
                    }
                } else {
                    Ok((st.0, st.1.push((k, val))))
                }
            }
        },
    }
}

pub open spec fn ler_pares(ps: Seq<Seq<char>>, nomes: Seq<Seq<char>>) -> Result<Leitura, Seq<char>>
    decreases ps.len(),
{
    if ps.len() == 0 {
        Ok((None, seq![]))
    } else {
        match ler_pares(ps.drop_last(), nomes) {
            Err(e) => Err(e),
            Ok(st) => passo(st, ps.last(), nomes),
        }
    }
}

/// O que [`Chamada::parse`] lê: a ferramenta e os argumentos, ou o erro.
pub open spec fn chamada_de(txt: Seq<char>, nomes: Seq<Seq<char>>) -> Result<
    (nat, Seq<(Seq<char>, Seq<char>)>),
    Seq<char>,
> {
    let t = aparado(txt);
    if !(t.len() >= 2 && t[0] == '{' && t.last() == '}') {
        Err("chamada deve estar entre chaves"@)
    } else {
        match ler_pares(pares(t.subrange(1, t.len() - 1)), nomes) {
            Err(e) => Err(e),
            Ok(st) => match st.0 {
                None => Err("chamada sem campo acao"@),
                Some(i) => Ok((i, st.1)),
            },
        }
    }
}

fn pares_exec(s: &[char]) -> (r: Vec<Vec<char>>)
    ensures
        crate::texto::vistas(r@) == pares(s@),
{
    let mut feitas: Vec<Vec<char>> = Vec::new();
    let mut ini: usize = 0;
    let mut dentro = false;
    let mut i: usize = 0;
    assert(crate::texto::vistas(feitas@) =~= Seq::<Seq<char>>::empty());
    while i < s.len()
        invariant
            ini <= i <= s.len(),
            pares_de(s@, i as int, ini as int, dentro, crate::texto::vistas(feitas@)) == pares(s@),
        decreases s.len() - i,
    {
        if s[i] == '"' {
            dentro = !dentro;
        } else if s[i] == ',' && !dentro {
            let ghost antes = feitas@;
            let p = fatia(s, ini, i);
            feitas.push(p);
            assert(crate::texto::vistas(feitas@) =~= crate::texto::vistas(antes).push(
                s@.subrange(ini as int, i as int),
            ));
            ini = i + 1;
        }
        i = i + 1;
    }
    if ini < s.len() {
        let ghost antes = feitas@;
        let p = fatia(s, ini, s.len());
        feitas.push(p);
        assert(crate::texto::vistas(feitas@) =~= crate::texto::vistas(antes).push(
            s@.subrange(ini as int, s@.len() as int),
        ));
    }
    feitas
}

/// Divide por vírgulas que estão fora de aspas.
pub fn dividir_pares(s: &str) -> (r: Vec<String>)
    ensures
        r@.map_values(|x: String| x@) == pares(s@),
{
    let c = caracteres(s);
    let ps = pares_exec(c.as_slice());
    let mut r: Vec<String> = Vec::new();
    let mut i: usize = 0;
    while i < ps.len()
        invariant
            i <= ps@.len(),
            crate::texto::vistas(ps@) == pares(s@),
            r@.len() == i,
            forall|k: int| 0 <= k < i ==> r@[k]@ == ps@[k]@,
        decreases ps.len() - i,
    {
        r.push(string_de(ps[i].as_slice()));
        i = i + 1;
    }
    assert(r@.map_values(|x: String| x@) =~= crate::texto::vistas(ps@));
    r
}

pub fn pos_char(s: &[char], c: char) -> (r: Option<usize>)
    ensures
        match pos_de(s@, c) {
            Some(j) => r == Some(j as usize),
            None => r is None,
        },
{
    let mut i: usize = 0;
    proof {
        lema_pos_de(s@, c);
    }
    while i < s.len()
        invariant
            i <= s.len(),
            forall|k: int| 0 <= k < i ==> s@[k] != c,
            match pos_de(s@, c) {
                Some(j) => j < s@.len() && s@[j as int] == c && forall|k: int|
                    0 <= k < j ==> s@[k] != c,
                None => forall|k: int| 0 <= k < s@.len() ==> s@[k] != c,
            },
        decreases s.len() - i,
    {
        if s[i] == c {
            return Some(i);
        }
        i = i + 1;
    }
    None
}

pub proof fn lema_pos_de(s: Seq<char>, c: char)
    ensures
        match pos_de(s, c) {
            Some(j) => j < s.len() && s[j as int] == c && forall|k: int| 0 <= k < j ==> s[k] != c,
            None => forall|k: int| 0 <= k < s.len() ==> s[k] != c,
        },
    decreases s.len(),
{
    if s.len() > 0 {
        let w = s.drop_last();
        lema_pos_de(w, c);
        assert forall|k: int| 0 <= k < w.len() implies w[k] == s[k] by {}
        if pos_de(w, c) is None && s.last() != c {
            assert forall|k: int| 0 <= k < s.len() implies s[k] != c by {
                if k < w.len() {
                    assert(w[k] != c);
                }
            }
        }
    }
}

fn tirar_aspas(s: &[char]) -> (r: Vec<char>)
    ensures
        r@ == sem_aspas(s@),
{
    let n = s.len();
    let mut i: usize = 0;
    assert(s@.subrange(0, n as int) =~= s@);
    while i < n && s[i] == '"'
        invariant
            i <= n,
            n == s.len(),
            sem_aspas_inicio(s@) == sem_aspas_inicio(s@.subrange(i as int, n as int)),
        decreases n - i,
    {
        assert(s@.subrange(i as int, n as int).drop_first() =~= s@.subrange(i + 1, n as int));
        i = i + 1;
    }
    let ghost t = s@.subrange(i as int, n as int);
    assert(sem_aspas_inicio(s@) == t);
    let mut j: usize = n;
    assert(t.subrange(0, (n - i) as int) =~= t);
    while j > i && s[j - 1] == '"'
        invariant
            i <= j <= n,
            n == s.len(),
            t == s@.subrange(i as int, n as int),
            sem_aspas_fim(t) == sem_aspas_fim(t.subrange(0, j - i)),
        decreases j,
    {
        assert(t.subrange(0, j - i).drop_last() =~= t.subrange(0, j - i - 1));
        assert(t[j - i - 1] == s@[j - 1]);
        j = j - 1;
    }
    assert(t.subrange(0, j - i) =~= s@.subrange(i as int, j as int));
    fatia(s, i, j)
}

impl Chamada {
    /// Lê de volta o formato de [`Chamada::texto`].
    ///
    /// Deliberadamente simples: quem gera é o autômato, então a entrada é sempre
    /// bem formada. Isto existe para testes, para o modo texto, e para quem colar
    /// uma chamada à mão.
    pub fn parse(txt: &str, reg: &Registro) -> (r: Result<Chamada, String>)
        ensures
            match chamada_de(txt@, nomes_de(reg.ferramentas@)) {
                Ok(x) => r matches Ok(c) && c.ferramenta == x.0 && vista_args(c.args@) == x.1,
                Err(e) => r matches Err(m) && m@ == e,
            },
    {
        let t = aparar_str_local(txt);
        if !(t.len() >= 2 && t[0] == '{' && t[t.len() - 1] == '}') {
            return Err(copiar("chamada deve estar entre chaves"));
        }
        let corpo = fatia(t.as_slice(), 1, t.len() - 1);
        let partes = pares_exec(corpo.as_slice());
        let ghost ps = pares(corpo@);
        let ghost nomes = nomes_de(reg.ferramentas@);
        let mut ferramenta: Option<usize> = None;
        let mut args: Vec<(String, String)> = Vec::new();
        let mut i: usize = 0;
        assert(ps.take(0) =~= Seq::<Seq<char>>::empty());
        assert(vista_args(args@) =~= Seq::<(Seq<char>, Seq<char>)>::empty());
        while i < partes.len()
            invariant
                i <= partes@.len(),
                crate::texto::vistas(partes@) == ps,
                ps == pares(corpo@),
                t@ == aparado(txt@),
                t@.len() >= 2 && t@[0] == '{' && t@.last() == '}',
                corpo@ == t@.subrange(1, t@.len() - 1),
                nomes == nomes_de(reg.ferramentas@),
                ler_pares(ps.take(i as int), nomes) == Ok::<Leitura, Seq<char>>(
                    (
                        match ferramenta {
                            Some(f) => Some(f as nat),
                            None => None,
                        },
                        vista_args(args@),
                    ),
                ),
            decreases partes.len() - i,
        {
            let parte = &partes[i];
            assert(ps.take(i + 1).drop_last() =~= ps.take(i as int));
            assert(ps.take(i + 1).last() == parte@);
            proof {
                lema_pos_de(parte@, ':');
            }
            let j = match pos_char(parte.as_slice(), ':') {
                Some(j) => j,
                None => {
                    proof {
                        lema_ler_pares_erro(ps, nomes, i + 1);
                    }
                    return Err(copiar("par sem dois-pontos"));
                },
            };
            let kc = fatia(parte.as_slice(), 0, j);
            let ka = aparar(kc.as_slice());
            let k = tirar_aspas(ka.as_slice());
            let vc = fatia(parte.as_slice(), j + 1, parte.len());
            let v = aparar(vc.as_slice());
            if !(v.len() >= 2 && v[0] == '"' && v[v.len() - 1] == '"') {
                let mut m = caracteres("valor de ");
                acrescentar_vec(&mut m, k.as_slice());
                let fim = caracteres(" nao esta entre aspas");
                acrescentar_vec(&mut m, fim.as_slice());
                proof {
                    lema_ler_pares_erro(ps, nomes, i + 1);
                }
                return Err(string_de(m.as_slice()));
            }
            let val = fatia(v.as_slice(), 1, v.len() - 1);
            let vs = string_de(val.as_slice());
            let ghost st: Leitura = (
                match ferramenta {
                    Some(f) => Some(f as nat),
                    None => None,
                },
                vista_args(args@),
            );
            proof {
                assert(pos_de(parte@, ':') == Some(j as nat));
                assert(k@ == sem_aspas(aparado(parte@.subrange(0, j as int))));
                assert(v@ == aparado(parte@.subrange(j as int + 1, parte@.len() as int)));
                assert(ler_pares(ps.take(i + 1), nomes) == passo(st, parte@, nomes));
            }
            if crate::texto::igual_str(k.as_slice(), "acao") {
                match reg.indice(vs.as_str()) {
                    None => {
                        let mut m = copiar("ferramenta desconhecida: ");
                        acrescentar_str(&mut m, vs.as_str());
                        proof {
                            lema_ler_pares_erro(ps, nomes, i + 1);
                        }
                        return Err(m);
                    },
                    Some(x) => {
                        assert(val@ == v@.subrange(1, v@.len() - 1));
                        assert(indice_de(nomes, val@) == Some(x as nat));
                        assert(passo(st, parte@, nomes) == Ok::<Leitura, Seq<char>>(
                            (Some(x as nat), st.1),
                        ));
                        ferramenta = Some(x);
                    },
                }
            } else {
                let ghost antes = args@;
                args.push((string_de(k.as_slice()), vs));
                assert(vista_args(args@) =~= vista_args(antes).push((k@, val@)));
                assert(val@ == v@.subrange(1, v@.len() - 1));
                assert(passo(st, parte@, nomes) == Ok::<Leitura, Seq<char>>(
                    (st.0, st.1.push((k@, val@))),
                ));
            }
            i = i + 1;
        }
        assert(ps.take(partes@.len() as int) =~= ps);
        match ferramenta {
            None => Err(copiar("chamada sem campo acao")),
            Some(f) => Ok(Chamada { ferramenta: f, args }),
        }
    }
}

proof fn lema_ler_pares_erro(ps: Seq<Seq<char>>, nomes: Seq<Seq<char>>, j: int)
    requires
        0 <= j <= ps.len(),
        ler_pares(ps.take(j), nomes) is Err,
    ensures
        ler_pares(ps, nomes) == ler_pares(ps.take(j), nomes),
    decreases ps.len(),
{
    if j == ps.len() {
        assert(ps.take(j) =~= ps);
    } else {
        assert(ps.drop_last().take(j) =~= ps.take(j));
        lema_ler_pares_erro(ps.drop_last(), nomes, j);
    }
}

fn aparar_str_local(s: &str) -> (r: Vec<char>)
    ensures
        r@ == aparado(s@),
{
    crate::texto::aparar_str(s)
}

// ───────────────────────────── ida e volta

/// `"k":"v"`.
pub open spec fn seg_par(k: Seq<char>, v: Seq<char>) -> Seq<char> {
    "\""@ + k + "\":\""@ + v + "\""@
}

/// Os pares que o texto de uma chamada tem, em ordem: a ação e depois cada argumento.
pub open spec fn lista_pares(nome: Seq<char>, args: Seq<(Seq<char>, Seq<char>)>) -> Seq<Seq<char>> {
    seq![seg_par("acao"@, nome)] + args.map_values(|a: (Seq<char>, Seq<char>)| seg_par(a.0, a.1))
}

pub open spec fn sem_aspa(s: Seq<char>) -> bool {
    !s.contains('"')
}

/// Os argumentos que [`Chamada::texto`] escreve e [`Chamada::parse`] lê de volta:
/// sem aspas, chave sem dois-pontos, e nenhuma chamada `acao`.
pub open spec fn args_legiveis(args: Seq<(Seq<char>, Seq<char>)>) -> bool {
    forall|i: int|
        0 <= i < args.len() ==> sem_aspa(#[trigger] args[i].0) && sem_aspa(args[i].1)
            && !args[i].0.contains(':') && args[i].0 != "acao"@
}

proof fn lema_aparado_fixo(s: Seq<char>)
    requires
        s.len() > 0,
        !e_branco(s[0]),
        !e_branco(s.last()),
    ensures
        aparado(s) == s,
{
}

proof fn lema_sem_aspas_cercado(k: Seq<char>)
    requires
        sem_aspa(k),
    ensures
        sem_aspas("\""@ + k + "\""@) == k,
{
    reveal_strlit("\"");
    let q = "\""@;
    let s = q + k + q;
    assert(s.drop_first() =~= k + q);
    assert(sem_aspas_inicio(s) == sem_aspas_inicio(k + q));
    if k.len() == 0 {
        assert((k + q).drop_first() =~= Seq::<char>::empty());
        assert(sem_aspas_inicio(k + q) == sem_aspas_inicio(Seq::<char>::empty()));
        assert(sem_aspas_inicio(Seq::<char>::empty()) == Seq::<char>::empty());
        assert(sem_aspas_fim(Seq::<char>::empty()) == Seq::<char>::empty());
        assert(k =~= Seq::<char>::empty());
    } else {
        assert((k + q)[0] == k[0]);
        assert(k[0] != '"');
        assert(sem_aspas_inicio(k + q) == k + q);
        assert((k + q).drop_last() =~= k);
        assert(sem_aspas_fim(k + q) == sem_aspas_fim(k));
        assert(k.last() != '"') by {
            assert(k[k.len() - 1] == k.last());
        }
        assert(sem_aspas_fim(k) == k);
    }
}

/// Um par lido volta como `(k, v)`.
proof fn lema_passo_par(st: Leitura, k: Seq<char>, v: Seq<char>, nomes: Seq<Seq<char>>)
    requires
        sem_aspa(k),
        sem_aspa(v),
        !k.contains(':'),
        k != "acao"@,
    ensures
        passo(st, seg_par(k, v), nomes) == Ok::<Leitura, Seq<char>>((st.0, st.1.push((k, v)))),
{
    reveal_strlit("\"");
    reveal_strlit("\":\"");
    let p = seg_par(k, v);
    let j: int = k.len() as int + 2;
    assert(p[j] == ':');
    assert forall|m: int| 0 <= m < j implies p[m] != ':' by {
        if 1 <= m < j - 1 {
            assert(p[m] == k[m - 1]);
        }
    }
    lema_pos_de(p, ':');
    assert(pos_de(p, ':') == Some(j as nat));
    let esq = p.subrange(0, j);
    assert(esq =~= "\""@ + k + "\""@);
    lema_aparado_fixo(esq);
    lema_sem_aspas_cercado(k);
    let dir = p.subrange(j + 1, p.len() as int);
    assert(dir =~= "\""@ + v + "\""@);
    lema_aparado_fixo(dir);
    assert(dir.subrange(1, dir.len() - 1) =~= v);
}

/// O par da ação volta como a ferramenta.
proof fn lema_passo_acao(st: Leitura, nome: Seq<char>, nomes: Seq<Seq<char>>, f: nat)
    requires
        sem_aspa(nome),
        indice_de(nomes, nome) == Some(f),
    ensures
        passo(st, seg_par("acao"@, nome), nomes) == Ok::<Leitura, Seq<char>>((Some(f), st.1)),
{
    reveal_strlit("\"");
    reveal_strlit("\":\"");
    reveal_strlit("acao");
    let k = "acao"@;
    let p = seg_par(k, nome);
    let j: int = k.len() as int + 2;
    assert(p[j] == ':');
    assert forall|m: int| 0 <= m < j implies p[m] != ':' by {
        if 1 <= m < j - 1 {
            assert(p[m] == k[m - 1]);
        }
    }
    lema_pos_de(p, ':');
    assert(pos_de(p, ':') == Some(j as nat));
    let esq = p.subrange(0, j);
    assert(esq =~= "\""@ + k + "\""@);
    lema_aparado_fixo(esq);
    lema_sem_aspas_cercado(k);
    let dir = p.subrange(j + 1, p.len() as int);
    assert(dir =~= "\""@ + nome + "\""@);
    lema_aparado_fixo(dir);
    assert(dir.subrange(1, dir.len() - 1) =~= nome);
}

proof fn lema_ler_lista(nome: Seq<char>, args: Seq<(Seq<char>, Seq<char>)>, nomes: Seq<Seq<char>>, f: nat)
    requires
        sem_aspa(nome),
        indice_de(nomes, nome) == Some(f),
        args_legiveis(args),
    ensures
        ler_pares(lista_pares(nome, args), nomes) == Ok::<Leitura, Seq<char>>((Some(f), args)),
    decreases args.len(),
{
    let ps = lista_pares(nome, args);
    if args.len() == 0 {
        assert(ps =~= seq![seg_par("acao"@, nome)]);
        assert(ps.drop_last() =~= Seq::<Seq<char>>::empty());
        let vazio: Leitura = (None, seq![]);
        assert(ler_pares(Seq::<Seq<char>>::empty(), nomes) == Ok::<Leitura, Seq<char>>(vazio));
        lema_passo_acao(vazio, nome, nomes, f);
        assert(ps.last() == seg_par("acao"@, nome));
        assert(ler_pares(ps, nomes) == passo(vazio, ps.last(), nomes));
        assert(args =~= Seq::<(Seq<char>, Seq<char>)>::empty());
    } else {
        let w = args.drop_last();
        assert(args_legiveis(w)) by {
            assert forall|i: int| 0 <= i < w.len() implies sem_aspa(#[trigger] w[i].0) && sem_aspa(
                w[i].1,
            ) && !w[i].0.contains(':') && w[i].0 != "acao"@ by {
                assert(w[i] == args[i]);
            }
        }
        lema_ler_lista(nome, w, nomes, f);
        assert(ps.drop_last() =~= lista_pares(nome, w));
        let a = args.last();
        assert(args[args.len() - 1] == a);
        assert(ps.last() == seg_par(a.0, a.1));
        let st: Leitura = (Some(f), w);
        lema_passo_par(st, a.0, a.1, nomes);
        assert(ler_pares(ps, nomes) == passo(st, ps.last(), nomes));
        assert(w.push(a) =~= args);
    }
}

/// `,"k":"v"` é a vírgula e o par.
proof fn lema_texto_args_passo(args: Seq<(Seq<char>, Seq<char>)>)
    requires
        args.len() > 0,
    ensures
        texto_args(args) == texto_args(args.drop_last()) + seq![','] + seg_par(
            args.last().0,
            args.last().1,
        ),
{
    reveal_strlit(",\"");
    reveal_strlit("\"");
    reveal_strlit("\":\"");
    assert(texto_args(args) =~= texto_args(args.drop_last()) + seq![','] + seg_par(
        args.last().0,
        args.last().1,
    ));
}

proof fn lema_texto_args_prefixo(args: Seq<(Seq<char>, Seq<char>)>, j: int)
    requires
        0 <= j <= args.len(),
    ensures
        texto_args(args.take(j)).len() <= texto_args(args).len(),
        texto_args(args).subrange(0, texto_args(args.take(j)).len() as int) == texto_args(
            args.take(j),
        ),
    decreases args.len(),
{
    if j == args.len() {
        assert(args.take(j) =~= args);
        assert(texto_args(args).subrange(0, texto_args(args).len() as int) =~= texto_args(args));
    } else {
        let w = args.drop_last();
        assert(w.take(j) =~= args.take(j));
        lema_texto_args_prefixo(w, j);
        let t = texto_args(args);
        let tw = texto_args(w);
        let n = texto_args(args.take(j)).len() as int;
        assert(t.subrange(0, n) =~= tw.subrange(0, n));
    }
}

proof fn lema_pares_varre(s: Seq<char>, i: int, j: int, ini: int, d: bool, f: Seq<Seq<char>>)
    requires
        0 <= i <= j <= s.len(),
        forall|m: int| i <= m < j ==> s[m] != '"' && (d || s[m] != ','),
    ensures
        pares_de(s, i, ini, d, f) == pares_de(s, j, ini, d, f),
    decreases j - i,
{
    if i < j {
        lema_pares_varre(s, i + 1, j, ini, d, f);
    }
}

/// Atravessar `"k":"v"` não corta nada e volta a estar fora de aspas.
proof fn lema_pares_par(s: Seq<char>, i: int, k: Seq<char>, v: Seq<char>, ini: int, f: Seq<Seq<char>>)
    requires
        0 <= i,
        i + seg_par(k, v).len() <= s.len(),
        s.subrange(i, i + seg_par(k, v).len()) == seg_par(k, v),
        sem_aspa(k),
        sem_aspa(v),
    ensures
        pares_de(s, i, ini, false, f) == pares_de(s, i + seg_par(k, v).len(), ini, false, f),
{
    reveal_strlit("\"");
    reveal_strlit("\":\"");
    let p = seg_par(k, v);
    let a = i + 1 + k.len();
    let b = a + 3 + v.len();
    assert(p.len() == k.len() + v.len() + 5);
    assert(s[i] == p[0]);
    assert forall|m: int| i + 1 <= m < a implies s[m] != '"' && (true || s[m] != ',') by {
        assert(s[m] == p[m - i]);
        assert(p[m - i] == k[m - i - 1]);
    }
    assert(pares_de(s, i, ini, false, f) == pares_de(s, i + 1, ini, true, f));
    lema_pares_varre(s, i + 1, a, ini, true, f);
    assert(s[a] == p[a - i]);
    assert(s[a + 1] == p[a + 1 - i]);
    assert(s[a + 2] == p[a + 2 - i]);
    assert(pares_de(s, a, ini, true, f) == pares_de(s, a + 1, ini, false, f));
    assert(pares_de(s, a + 1, ini, false, f) == pares_de(s, a + 2, ini, false, f));
    assert(pares_de(s, a + 2, ini, false, f) == pares_de(s, a + 3, ini, true, f));
    assert forall|m: int| a + 3 <= m < b implies s[m] != '"' && (true || s[m] != ',') by {
        assert(s[m] == p[m - i]);
        assert(p[m - i] == v[m - a - 3]);
    }
    lema_pares_varre(s, a + 3, b, ini, true, f);
    assert(s[b] == p[b - i]);
    assert(pares_de(s, b, ini, true, f) == pares_de(s, b + 1, ini, false, f));
}

/// Onde começa o par `j` (o `0` é a ação) no corpo da chamada.
pub open spec fn ini_par(nome: Seq<char>, args: Seq<(Seq<char>, Seq<char>)>, j: int) -> int {
    if j == 0 {
        0
    } else {
        seg_par("acao"@, nome).len() as int + texto_args(args.take(j - 1)).len() + 1
    }
}

/// Onde termina o par `j` no corpo da chamada.
pub open spec fn fim_par(nome: Seq<char>, args: Seq<(Seq<char>, Seq<char>)>, j: int) -> int {
    seg_par("acao"@, nome).len() as int + texto_args(args.take(j)).len()
}

proof fn lema_texto_args_vizinho(args: Seq<(Seq<char>, Seq<char>)>, j: int)
    requires
        0 <= j < args.len(),
    ensures
        ({
            let t = texto_args(args);
            let a = texto_args(args.take(j)).len() as int;
            let b = texto_args(args.take(j + 1)).len() as int;
            &&& b <= t.len()
            &&& b == a + 1 + seg_par(args[j].0, args[j].1).len()
            &&& t[a] == ','
            &&& t.subrange(a + 1, b) == seg_par(args[j].0, args[j].1)
        }),
{
    lema_texto_args_prefixo(args, j + 1);
    assert(args.take(j + 1).drop_last() =~= args.take(j));
    assert(args.take(j + 1).last() == args[j]);
    lema_texto_args_passo(args.take(j + 1));
    let t = texto_args(args);
    let tj = texto_args(args.take(j));
    let tj1 = texto_args(args.take(j + 1));
    let q = seg_par(args[j].0, args[j].1);
    assert(tj1 == tj + seq![','] + q);
    assert(t[tj.len() as int] == tj1[tj.len() as int]);
    assert(t.subrange(tj.len() as int + 1, tj1.len() as int) =~= tj1.subrange(
        tj.len() as int + 1,
        tj1.len() as int,
    ));
}

/// O par `j` está entre `ini_par` e `fim_par`, e depois dele vem uma vírgula ou o
/// fim.
proof fn lema_segmento(nome: Seq<char>, args: Seq<(Seq<char>, Seq<char>)>, j: int)
    requires
        0 <= j <= args.len(),
    ensures
        ({
            let s = seg_par("acao"@, nome) + texto_args(args);
            let ps = lista_pares(nome, args);
            &&& 0 <= ini_par(nome, args, j) < fim_par(nome, args, j) <= s.len()
            &&& s.subrange(ini_par(nome, args, j), fim_par(nome, args, j)) == ps[j]
            &&& (j == args.len() ==> fim_par(nome, args, j) == s.len())
            &&& (j < args.len() ==> s[fim_par(nome, args, j)] == ',')
        }),
{
    let p0 = seg_par("acao"@, nome);
    let t = texto_args(args);
    let s = p0 + t;
    let ps = lista_pares(nome, args);
    reveal_strlit("\"");
    reveal_strlit("\":\"");
    if j == 0 {
        assert(args.take(0) =~= Seq::<(Seq<char>, Seq<char>)>::empty());
        assert(s.subrange(0, p0.len() as int) =~= p0);
    } else {
        lema_texto_args_vizinho(args, j - 1);
        let a = texto_args(args.take(j - 1)).len() as int;
        let b = texto_args(args.take(j)).len() as int;
        assert(s.subrange(p0.len() + a + 1, p0.len() + b) =~= t.subrange(a + 1, b));
        assert(ps[j] == seg_par(args[j - 1].0, args[j - 1].1));
    }
    if j == args.len() {
        assert(args.take(j) =~= args);
    } else {
        lema_texto_args_vizinho(args, j);
        let b = texto_args(args.take(j)).len() as int;
        assert(s[p0.len() + b] == t[b]);
    }
    lema_texto_args_prefixo(args, j);
}

/// A partir do fim do par `j`, o resto do corpo se divide nos pares seguintes.
proof fn lema_pares_desde(nome: Seq<char>, args: Seq<(Seq<char>, Seq<char>)>, j: int)
    requires
        sem_aspa(nome),
        args_legiveis(args),
        0 <= j <= args.len(),
    ensures
        pares_de(
            seg_par("acao"@, nome) + texto_args(args),
            fim_par(nome, args, j),
            ini_par(nome, args, j),
            false,
            lista_pares(nome, args).take(j),
        ) == lista_pares(nome, args),
    decreases args.len() - j,
{
    let s = seg_par("acao"@, nome) + texto_args(args);
    let ps = lista_pares(nome, args);
    let ini = ini_par(nome, args, j);
    let fim = fim_par(nome, args, j);
    lema_segmento(nome, args, j);
    if j == args.len() {
        assert(ps.take(j).push(s.subrange(ini, s.len() as int)) =~= ps);
    } else {
        lema_segmento(nome, args, j + 1);
        assert(ini_par(nome, args, j + 1) == fim + 1);
        assert(ps.take(j).push(s.subrange(ini, fim)) =~= ps.take(j + 1));
        assert(pares_de(s, fim, ini, false, ps.take(j)) == pares_de(
            s,
            fim + 1,
            fim + 1,
            false,
            ps.take(j + 1),
        ));
        let a = args[j];
        assert(ps[j + 1] == seg_par(a.0, a.1));
        assert(sem_aspa(a.0) && sem_aspa(a.1));
        lema_pares_par(s, fim + 1, a.0, a.1, fim + 1, ps.take(j + 1));
        lema_pares_desde(nome, args, j + 1);
    }
}

/// O corpo de uma chamada se divide exatamente nos seus pares.
proof fn lema_pares_corpo(nome: Seq<char>, args: Seq<(Seq<char>, Seq<char>)>)
    requires
        sem_aspa(nome),
        args_legiveis(args),
    ensures
        pares(seg_par("acao"@, nome) + texto_args(args)) == lista_pares(nome, args),
{
    let p0 = seg_par("acao"@, nome);
    let s = p0 + texto_args(args);
    let ps = lista_pares(nome, args);
    reveal_strlit("acao");
    assert(sem_aspa("acao"@));
    lema_segmento(nome, args, 0);
    assert(args.take(0) =~= Seq::<(Seq<char>, Seq<char>)>::empty());
    assert(s.subrange(0, p0.len() as int) =~= p0);
    lema_pares_par(s, 0, "acao"@, nome, 0, seq![]);
    assert(ps.take(0) =~= Seq::<Seq<char>>::empty());
    lema_pares_desde(nome, args, 0);
}

/// O que [`Chamada::texto`] escreve, [`Chamada::parse`] lê de volta: a mesma
/// ferramenta e os mesmos argumentos, na mesma ordem.
pub proof fn lei_chamada_ida_e_volta(
    nomes: Seq<Seq<char>>,
    f: nat,
    args: Seq<(Seq<char>, Seq<char>)>,
)
    requires
        f < nomes.len(),
        indice_de(nomes, nomes[f as int]) == Some(f),
        sem_aspa(nomes[f as int]),
        args_legiveis(args),
    ensures
        chamada_de(texto_chamada(nomes[f as int], args), nomes) == Ok::<
            (nat, Seq<(Seq<char>, Seq<char>)>),
            Seq<char>,
        >((f, args)),
{
    let nome = nomes[f as int];
    let t = texto_chamada(nome, args);
    reveal_strlit("{\"acao\":\"");
    reveal_strlit("\"");
    reveal_strlit("}");
    reveal_strlit("acao");
    reveal_strlit("\":\"");
    let p0 = seg_par("acao"@, nome);
    let corpo = p0 + texto_args(args);
    assert(t =~= seq!['{'] + corpo + seq!['}']);
    lema_aparado_fixo(t);
    assert(t.subrange(1, t.len() - 1) =~= corpo);
    lema_pares_corpo(nome, args);
    lema_ler_lista(nome, args, nomes, f);
}


// ───────────────────────────── o registro inicial

pub open spec fn vista_param(p: Param) -> (Seq<char>, TipoParam, bool) {
    (p.nome@, p.tipo, p.obrigatorio)
}

/// Uma ferramenta vista como (nome, descrição, primitiva, parâmetros).
pub open spec fn vista_ferramenta(f: Ferramenta) -> (
    Seq<char>,
    Seq<char>,
    Primitiva,
    Seq<(Seq<char>, TipoParam, bool)>,
) {
    (f.nome@, f.descricao@, f.prim, f.params@.map_values(|p: Param| vista_param(p)))
}

pub open spec fn vistas_ferramentas(fs: Seq<Ferramenta>) -> Seq<
    (Seq<char>, Seq<char>, Primitiva, Seq<(Seq<char>, TipoParam, bool)>),
> {
    fs.map_values(|f: Ferramenta| vista_ferramenta(f))
}

/// As ferramentas do registro inicial, em ordem.
pub open spec fn tabela_padrao() -> Seq<
    (Seq<char>, Seq<char>, Primitiva, Seq<(Seq<char>, TipoParam, bool)>),
> {
    seq![
        ("perguntar"@, "diz que nao entendeu e pede para reformular"@, Primitiva::Perguntar, seq![]),
        ("hora"@, "diz a data e a hora de agora"@, Primitiva::Hora, seq![]),
        ("listar_pasta"@, "mostra os arquivos e pastas de um diretorio"@, Primitiva::ListarPasta, seq![("caminho"@, TipoParam::Caminho, true)]),
        ("ler_arquivo"@, "mostra o conteudo de um arquivo de texto"@, Primitiva::LerArquivo, seq![("caminho"@, TipoParam::Caminho, true)]),
        ("procurar_arquivo"@, "procura arquivos cujo nome contenha um trecho"@, Primitiva::ProcurarArquivo, seq![("nome"@, TipoParam::Texto, true), ("raiz"@, TipoParam::Caminho, false)]),
        ("calcular"@, "resolve uma conta matematica"@, Primitiva::Calcular, seq![("expressao"@, TipoParam::Texto, true)]),
        ("memoria"@, "diz quanta memoria RAM esta em uso"@, Primitiva::Memoria, seq![]),
        ("disco"@, "diz quanto espaco livre tem no disco"@, Primitiva::Disco, seq![("caminho"@, TipoParam::Caminho, false)]),
        ("escrever_arquivo"@, "grava um texto num arquivo"@, Primitiva::EscreverArquivo, seq![("caminho"@, TipoParam::Caminho, true), ("texto"@, TipoParam::Texto, true)]),
        ("buscar_web"@, "procura na internet e traz um resumo"@, Primitiva::BuscarWeb, seq![("consulta"@, TipoParam::Texto, true)]),
        ("abrir_programa"@, "abre um programa no computador"@, Primitiva::AbrirPrograma, seq![("programa"@, TipoParam::Texto, true)]),
        ("copiar_arquivo"@, "copia um arquivo para outro lugar"@, Primitiva::CopiarArquivo, seq![("origem"@, TipoParam::Caminho, true), ("destino"@, TipoParam::Caminho, true)]),
        ("mover_arquivo"@, "move ou renomeia um arquivo"@, Primitiva::MoverArquivo, seq![("origem"@, TipoParam::Caminho, true), ("destino"@, TipoParam::Caminho, true)]),
        ("criar_pasta"@, "cria uma pasta"@, Primitiva::CriarPasta, seq![("caminho"@, TipoParam::Caminho, true)]),
        ("info_arquivo"@, "diz o tamanho e a data de um arquivo"@, Primitiva::InfoArquivo, seq![("caminho"@, TipoParam::Caminho, true)]),
        ("apagar_arquivo"@, "apaga um arquivo"@, Primitiva::ApagarArquivo, seq![("caminho"@, TipoParam::Caminho, true)]),
        ("processos"@, "lista os programas rodando agora"@, Primitiva::Processos, seq![]),
        ("rede"@, "diz o IP e o estado da rede"@, Primitiva::Rede, seq![]),
        ("executar_comando"@, "roda um comando do sistema"@, Primitiva::ExecutarComando, seq![("comando"@, TipoParam::Texto, true)]),
        ("buscar_no_conteudo"@, "procura um trecho DENTRO dos arquivos, nao pelo nome deles"@, Primitiva::Grep, seq![("padrao"@, TipoParam::Texto, true), ("raiz"@, TipoParam::Caminho, false)]),
        ("ler_imagem"@, "abre uma imagem e descreve o que ela contem"@, Primitiva::LerImagem, seq![("caminho"@, TipoParam::Caminho, true)]),
        ("atalho"@, "manda um atalho de teclado (musica, volume, mudo)"@, Primitiva::Atalho, seq![("nome"@, TipoParam::Texto, true), ("alvo"@, TipoParam::Texto, false)]),
    ]
}

fn params0() -> (r: Vec<Param>)
    ensures
        r@.map_values(|p: Param| vista_param(p)) == Seq::<(Seq<char>, TipoParam, bool)>::empty(),
{
    let v = Vec::new();
    assert(v@.map_values(|p: Param| vista_param(p)) =~= Seq::<(Seq<char>, TipoParam, bool)>::empty());
    v
}

fn params1(n: &str, t: TipoParam, o: bool) -> (r: Vec<Param>)
    ensures
        r@.map_values(|p: Param| vista_param(p)) == seq![(n@, t, o)],
{
    let mut v = Vec::new();
    v.push(Param { nome: copiar(n), tipo: t, obrigatorio: o });
    assert(v@.map_values(|p: Param| vista_param(p)) =~= seq![(n@, t, o)]);
    v
}

fn params2(n1: &str, t1: TipoParam, o1: bool, n2: &str, t2: TipoParam, o2: bool) -> (r: Vec<
    Param,
>)
    ensures
        r@.map_values(|p: Param| vista_param(p)) == seq![(n1@, t1, o1), (n2@, t2, o2)],
{
    let mut v = Vec::new();
    v.push(Param { nome: copiar(n1), tipo: t1, obrigatorio: o1 });
    v.push(Param { nome: copiar(n2), tipo: t2, obrigatorio: o2 });
    assert(v@.map_values(|p: Param| vista_param(p)) =~= seq![(n1@, t1, o1), (n2@, t2, o2)]);
    v
}

fn ferramenta(nome: &str, descricao: &str, params: Vec<Param>, prim: Primitiva) -> (r: Ferramenta)
    ensures
        vista_ferramenta(r) == (
            nome@,
            descricao@,
            prim,
            params@.map_values(|p: Param| vista_param(p)),
        ),
{
    Ferramenta { nome: copiar(nome), descricao: copiar(descricao), params, prim }
}

impl Registro {
    /// O registro inicial da Teka: vinte e duas ferramentas. A primeira é
    /// `perguntar`, o que ela escolhe quando nada encaixa.
    #[verifier::rlimit(50)]
    pub fn padrao() -> (r: Self)
        ensures
            vistas_ferramentas(r.ferramentas@) == tabela_padrao(),
    {
        let mut fs: Vec<Ferramenta> = Vec::new();
        fs.push(ferramenta("perguntar", "diz que nao entendeu e pede para reformular", params0(), Primitiva::Perguntar));
        assert(vistas_ferramentas(fs@) =~~= tabela_padrao().take(1));
        fs.push(ferramenta("hora", "diz a data e a hora de agora", params0(), Primitiva::Hora));
        assert(vistas_ferramentas(fs@) =~~= tabela_padrao().take(2));
        fs.push(ferramenta("listar_pasta", "mostra os arquivos e pastas de um diretorio", params1("caminho", TipoParam::Caminho, true), Primitiva::ListarPasta));
        assert(vistas_ferramentas(fs@) =~~= tabela_padrao().take(3));
        fs.push(ferramenta("ler_arquivo", "mostra o conteudo de um arquivo de texto", params1("caminho", TipoParam::Caminho, true), Primitiva::LerArquivo));
        assert(vistas_ferramentas(fs@) =~~= tabela_padrao().take(4));
        fs.push(ferramenta("procurar_arquivo", "procura arquivos cujo nome contenha um trecho", params2("nome", TipoParam::Texto, true, "raiz", TipoParam::Caminho, false), Primitiva::ProcurarArquivo));
        assert(vistas_ferramentas(fs@) =~~= tabela_padrao().take(5));
        fs.push(ferramenta("calcular", "resolve uma conta matematica", params1("expressao", TipoParam::Texto, true), Primitiva::Calcular));
        assert(vistas_ferramentas(fs@) =~~= tabela_padrao().take(6));
        fs.push(ferramenta("memoria", "diz quanta memoria RAM esta em uso", params0(), Primitiva::Memoria));
        assert(vistas_ferramentas(fs@) =~~= tabela_padrao().take(7));
        fs.push(ferramenta("disco", "diz quanto espaco livre tem no disco", params1("caminho", TipoParam::Caminho, false), Primitiva::Disco));
        assert(vistas_ferramentas(fs@) =~~= tabela_padrao().take(8));
        fs.push(ferramenta("escrever_arquivo", "grava um texto num arquivo", params2("caminho", TipoParam::Caminho, true, "texto", TipoParam::Texto, true), Primitiva::EscreverArquivo));
        assert(vistas_ferramentas(fs@) =~~= tabela_padrao().take(9));
        fs.push(ferramenta("buscar_web", "procura na internet e traz um resumo", params1("consulta", TipoParam::Texto, true), Primitiva::BuscarWeb));
        assert(vistas_ferramentas(fs@) =~~= tabela_padrao().take(10));
        fs.push(ferramenta("abrir_programa", "abre um programa no computador", params1("programa", TipoParam::Texto, true), Primitiva::AbrirPrograma));
        assert(vistas_ferramentas(fs@) =~~= tabela_padrao().take(11));
        fs.push(ferramenta("copiar_arquivo", "copia um arquivo para outro lugar", params2("origem", TipoParam::Caminho, true, "destino", TipoParam::Caminho, true), Primitiva::CopiarArquivo));
        assert(vistas_ferramentas(fs@) =~~= tabela_padrao().take(12));
        fs.push(ferramenta("mover_arquivo", "move ou renomeia um arquivo", params2("origem", TipoParam::Caminho, true, "destino", TipoParam::Caminho, true), Primitiva::MoverArquivo));
        assert(vistas_ferramentas(fs@) =~~= tabela_padrao().take(13));
        fs.push(ferramenta("criar_pasta", "cria uma pasta", params1("caminho", TipoParam::Caminho, true), Primitiva::CriarPasta));
        assert(vistas_ferramentas(fs@) =~~= tabela_padrao().take(14));
        fs.push(ferramenta("info_arquivo", "diz o tamanho e a data de um arquivo", params1("caminho", TipoParam::Caminho, true), Primitiva::InfoArquivo));
        assert(vistas_ferramentas(fs@) =~~= tabela_padrao().take(15));
        fs.push(ferramenta("apagar_arquivo", "apaga um arquivo", params1("caminho", TipoParam::Caminho, true), Primitiva::ApagarArquivo));
        assert(vistas_ferramentas(fs@) =~~= tabela_padrao().take(16));
        fs.push(ferramenta("processos", "lista os programas rodando agora", params0(), Primitiva::Processos));
        assert(vistas_ferramentas(fs@) =~~= tabela_padrao().take(17));
        fs.push(ferramenta("rede", "diz o IP e o estado da rede", params0(), Primitiva::Rede));
        assert(vistas_ferramentas(fs@) =~~= tabela_padrao().take(18));
        fs.push(ferramenta("executar_comando", "roda um comando do sistema", params1("comando", TipoParam::Texto, true), Primitiva::ExecutarComando));
        assert(vistas_ferramentas(fs@) =~~= tabela_padrao().take(19));
        fs.push(ferramenta("buscar_no_conteudo", "procura um trecho DENTRO dos arquivos, nao pelo nome deles", params2("padrao", TipoParam::Texto, true, "raiz", TipoParam::Caminho, false), Primitiva::Grep));
        assert(vistas_ferramentas(fs@) =~~= tabela_padrao().take(20));
        fs.push(ferramenta("ler_imagem", "abre uma imagem e descreve o que ela contem", params1("caminho", TipoParam::Caminho, true), Primitiva::LerImagem));
        assert(vistas_ferramentas(fs@) =~~= tabela_padrao().take(21));
        fs.push(ferramenta("atalho", "manda um atalho de teclado (musica, volume, mudo)", params2("nome", TipoParam::Texto, true, "alvo", TipoParam::Texto, false), Primitiva::Atalho));
        assert(vistas_ferramentas(fs@) =~~= tabela_padrao().take(22));
        assert(tabela_padrao().take(22) =~= tabela_padrao());
        Registro { ferramentas: fs }
    }
}

// ───────────────────────────── branco em volta de um par

/// Só espaço em branco.
pub open spec fn so_branco(w: Seq<char>) -> bool {
    forall|i: int| 0 <= i < w.len() ==> e_branco(#[trigger] w[i])
}

proof fn lema_inicial_branco(w: Seq<char>, y: Seq<char>)
    requires
        so_branco(w),
    ensures
        sem_branco_inicial(w + y) == sem_branco_inicial(y),
    decreases w.len(),
{
    if w.len() > 0 {
        assert((w + y)[0] == w[0]);
        assert((w + y).drop_first() =~= w.drop_first() + y);
        let r = w.drop_first();
        assert forall|i: int| 0 <= i < r.len() implies e_branco(#[trigger] r[i]) by {
            assert(r[i] == w[i + 1]);
        }
        lema_inicial_branco(r, y);
    }
}

proof fn lema_final_branco(y: Seq<char>, w: Seq<char>)
    requires
        so_branco(w),
    ensures
        sem_branco_final(y + w) == sem_branco_final(y),
    decreases w.len(),
{
    if w.len() > 0 {
        assert((y + w).last() == w.last());
        assert((y + w).drop_last() =~= y + w.drop_last());
        let r = w.drop_last();
        assert forall|i: int| 0 <= i < r.len() implies e_branco(#[trigger] r[i]) by {
            assert(r[i] == w[i]);
        }
        lema_final_branco(y, r);
    } else {
        assert(y + w =~= y);
    }
}

proof fn lema_aparado_meio(x: Seq<char>, w: Seq<char>)
    requires
        so_branco(w),
    ensures
        sem_branco_final(sem_branco_inicial(x + w)) == sem_branco_final(sem_branco_inicial(x)),
    decreases x.len(),
{
    if x.len() == 0 {
        assert(x + w =~= w + Seq::<char>::empty());
        lema_inicial_branco(w, seq![]);
    } else if e_branco(x[0]) {
        assert((x + w)[0] == x[0]);
        assert((x + w).drop_first() =~= x.drop_first() + w);
        lema_aparado_meio(x.drop_first(), w);
    } else {
        assert((x + w)[0] == x[0]);
        assert(sem_branco_inicial(x + w) == x + w);
        assert(sem_branco_inicial(x) == x);
        lema_final_branco(x, w);
    }
}

proof fn lema_aparado_em_volta(w1: Seq<char>, x: Seq<char>, w2: Seq<char>)
    requires
        so_branco(w1),
        so_branco(w2),
    ensures
        aparado(w1 + x + w2) == aparado(x),
{
    assert(w1 + x + w2 =~= w1 + (x + w2));
    lema_inicial_branco(w1, x + w2);
    lema_aparado_meio(x, w2);
}

/// Espaço em branco em volta da chave e do valor de um par não muda a leitura:
/// quem cola uma chamada à mão, com espaço depois dos dois-pontos ou antes da
/// vírgula, tem o par lido igual ao escrito sem espaço.
pub proof fn lei_branco_em_volta_do_par(
    st: Leitura,
    k: Seq<char>,
    v: Seq<char>,
    w1: Seq<char>,
    w2: Seq<char>,
    w3: Seq<char>,
    w4: Seq<char>,
    nomes: Seq<Seq<char>>,
)
    requires
        forall|i: int| 0 <= i < k.len() ==> k[i] != ':',
        so_branco(w1),
        so_branco(w2),
        so_branco(w3),
        so_branco(w4),
    ensures
        passo(st, w1 + k + w2 + seq![':'] + w3 + v + w4, nomes) == passo(st, k + seq![':'] + v, nomes),
{
    let a = w1 + k + w2 + seq![':'] + w3 + v + w4;
    let b = k + seq![':'] + v;
    let ja = (w1 + k + w2).len() as int;
    let jb = k.len() as int;
    lema_pos_de(a, ':');
    lema_pos_de(b, ':');
    assert(a[ja] == ':');
    assert(b[jb] == ':');
    assert forall|i: int| 0 <= i < ja implies a[i] != ':' by {
        if i < w1.len() {
            assert(a[i] == w1[i]);
            assert(e_branco(w1[i]));
        } else if i < w1.len() + k.len() {
            assert(a[i] == k[i - w1.len()]);
        } else {
            assert(a[i] == w2[i - w1.len() - k.len()]);
            assert(e_branco(w2[i - w1.len() - k.len()]));
        }
    }
    assert forall|i: int| 0 <= i < jb implies b[i] != ':' by {
        assert(b[i] == k[i]);
    }
    assert(pos_de(a, ':') == Some(ja as nat));
    assert(pos_de(b, ':') == Some(jb as nat));
    assert(a.subrange(0, ja) =~= w1 + k + w2);
    assert(a.subrange(ja + 1, a.len() as int) =~= w3 + v + w4);
    assert(b.subrange(0, jb) =~= k);
    assert(b.subrange(jb + 1, b.len() as int) =~= v);
    lema_aparado_em_volta(w1, k, w2);
    lema_aparado_em_volta(w3, v, w4);
}

} // verus!
