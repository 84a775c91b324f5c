# teka

As regras, guardas e formatos de um agente local que age com ferramentas, escritos
em Verus e provados contra os seus contratos.

- `src/` — a biblioteca verificada. O registro de ferramentas e o parser de
  chamadas; a política de segurança e o plano de cada primitiva; o executor e a
  decisão de quando pedir confirmação; o diário de execuções; a oficina (cópia de
  trabalho) e o seu diff; as regras e o vigia; os atalhos de teclado; a ponte
  WebSocket (SHA-1, base64, handshake, quadros); a busca na web; o servidor HTTP
  local (rotas, tokens, confirmações); os patchers de bytes e o plano de patches;
  o n-grama de bytes (contagem, espalhamento, arquivo); os formatos binários do
  cérebro e do safetensors; o gerador pseudoaleatório; o pulso.
- `app/` — o que fica em volta: disco, rede, processos, terminal e as contas em
  ponto flutuante. As decisões vêm todas da biblioteca.
- `tests/` — os testes, que rodam a biblioteca de verdade.

Onde uma função depende de algo que não dá para provar (o texto que
`String::from_utf8_lossy`, `str::to_lowercase` ou `format!("{:?}")` produzem), o
contrato fala desse resultado por um nome, e o item que faz a chamada o diz no
seu comentário.
