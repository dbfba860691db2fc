# bevy_dialogue

Dialogues for game characters, kept in assets: each character class has
states, each state a list of dialogues, each dialogue its content in several
languages, the events it triggers and the states it moves listeners to.

`src/` is the library, proved with Verus:

- `model` — assets, characters, requests, the notices sent back, and the
  builders of the requests.
- `template` — `{{name}}` variables in dialogue contents.
- `language` — which language a character speaks and which content is used.
- `dialogue` — answering a dialogue request: the asset that has the
  character's dialogues, the state it speaks from (a listener's dialogue can
  change it), the dialogue used and what is sent.
- `sequence` — sequences of dialogues across several characters: which
  asset answers, who speaks next, where each sequence stands, and when it
  ends and starts over.
- `state` — moving a character to a requested or to the following state.
- `outside` — the types of the crates the library works with, and the calls
  into them; Verus believes these contracts.

`app/` holds the bevy side: the plugin, the ECS resources, events and
components, the RON asset loader, and the systems that look up components, pass each
request to the library and send its answer.
